use logger::layout::{bar_line, header, hint_line, location_line, row};
use logger::utils::{bold_highlight, highlight};
use logger::{highlight_source, Color, Location, Log, LogLevel, Paint, Section};

fn plain() {
    colored::control::set_override(false);
}

const BAD_CODE: &str = "fn main() {\n    println!(\"Hello!\\n\");\n}\n";

fn twelve_lines() -> String {
    let mut text = String::new();
    for i in 1..=12 {
        text.push_str(&format!("line {}\n", i));
    }
    text
}

#[test]
fn warning_with_snippet_and_hint() {
    plain();
    let location = Location::from_source("examples/highlighted/bad_code.rs", BAD_CODE)
        .section(Section::new(1..=1, 20..=22));
    let log = Log::new(LogLevel::Warning, "Using new line in println! call")
        .location(location)
        .hint("Remove '\\n' in 'println!' call");
    let expected = "Warning: Using new line in println! call\n \
                    --> examples/highlighted/bad_code.rs:2:23\n  \
                    |\n\
                    2 |     println!(\"Hello!\\n\");\n  \
                    |\n  \
                    | help: Remove '\\n' in 'println!' call\n";
    assert_eq!(log.render(""), expected);
}

#[test]
fn header_alone() {
    plain();
    let log = Log::new(LogLevel::Error, "it broke");
    assert_eq!(log.render(""), "Error: it broke\n");
}

#[test]
fn header_with_app_name() {
    plain();
    let log = Log::new(LogLevel::Info, "started");
    assert_eq!(log.render("server"), "Info[server]: started\n");
    assert_eq!(header(LogLevel::Fatal, "stop", "x"), "Fatal[x]: stop\n");
}

#[test]
fn header_holds_name_and_message_for_every_level() {
    plain();
    let levels = [
        (LogLevel::Trace, "Trace"),
        (LogLevel::Debug, "Debug"),
        (LogLevel::Info, "Info"),
        (LogLevel::Warning, "Warning"),
        (LogLevel::Error, "Error"),
        (LogLevel::Fatal, "Fatal"),
    ];
    for (level, name) in levels {
        let head = header(level, "something happened", "");
        assert_eq!(head, format!("{}: something happened\n", name));
        let tagged = header(level, "something happened", "tool");
        assert_eq!(tagged, format!("{}[tool]: something happened\n", name));
    }
}

#[test]
fn message_builder_replaces_the_message() {
    plain();
    let log = Log::new(LogLevel::Debug, "first").message("second");
    assert_eq!(log.message, "second");
    assert_eq!(log.render(""), "Debug: second\n");
}

#[test]
fn hint_without_location() {
    plain();
    let log = Log::new(LogLevel::Error, "no such file").hint("check the path");
    assert_eq!(log.render(""), "Error: no such file\n | help: check the path\n");
}

#[test]
fn location_without_section_shows_the_path_only() {
    plain();
    let log = Log::new(LogLevel::Error, "bad input")
        .location(Location::from_source("input.txt", "one\ntwo\n"));
    assert_eq!(log.render(""), "Error: bad input\n--> input.txt\n");
}

#[test]
fn inline_text_is_shown_as_unknown() {
    plain();
    let log = Log::new(LogLevel::Error, "bad input")
        .location(Location::from_text("let x = 1;").section(Section::new(0..=0, 4..=5)))
        .hint("rename it");
    let expected = "Error: bad input\n \
                    --> unknown:1:6\n  \
                    |\n\
                    1 | let x = 1;\n  \
                    |\n  \
                    | help: rename it\n";
    assert_eq!(log.render(""), expected);
}

#[test]
fn snippet_without_hint_is_closed_by_a_bar() {
    plain();
    let log = Log::new(LogLevel::Info, "look")
        .location(Location::from_text("alpha\nbeta\ngamma").section(Section::new(1..=1, 0..=4)));
    let expected = "Info: look\n --> unknown:2:5\n  |\n2 | beta\n  |\n";
    assert_eq!(log.render(""), expected);
}

#[test]
fn snippet_is_dedented_before_it_is_shown() {
    plain();
    let source = "        if broken {\n            fix();\n        }";
    let log = Log::new(LogLevel::Warning, "indented")
        .location(Location::from_text(source).section(Section::new(0..=2, 0..=1)));
    let expected = "Warning: indented\n \
                    --> unknown:3:2\n  \
                    |\n\
                    1 | if broken {\n\
                    2 |     fix();\n\
                    3 | }\n  \
                    |\n";
    assert_eq!(log.render(""), expected);
}

#[test]
fn line_numbers_of_different_widths_stay_aligned() {
    plain();
    let text = twelve_lines();
    let log = Log::new(LogLevel::Error, "wide")
        .location(Location::from_source("f.txt", &text).section(Section::new(8..=10, 0..=3)));
    let expected = "Error: wide\n  \
                    --> f.txt:11:4\n   \
                    |\n\
                    9  | line 9\n\
                    10 | line 10\n\
                    11 | line 11\n   \
                    |\n";
    assert_eq!(log.render(""), expected);
}

#[test]
fn three_digit_line_numbers_on_several_lines() {
    plain();
    let mut text = String::new();
    for i in 1..=101 {
        text.push_str(&format!("l{}\n", i));
    }
    let log = Log::new(LogLevel::Error, "far down")
        .location(Location::from_source("f.txt", &text).section(Section::new(99..=100, 0..=1)));
    let expected = "Error: far down\n   \
                    --> f.txt:101:2\n    \
                    |\n\
                    100 | l100\n\
                    101 | l101\n    \
                    |\n";
    assert_eq!(log.render(""), expected);
}

#[test]
fn source_panel_shows_only_the_lines_of_the_span() {
    plain();
    let source = "zero\none\ntwo\nthree\nfour";
    let location = Location::from_text(source).section(Section::new(1..=2, 1..=2));
    let panel = highlight_source(source, &location, "  ", LogLevel::Error);
    assert_eq!(panel, "2 | one\n3 | two\n");
}

#[test]
fn source_panel_without_span_shows_every_line() {
    plain();
    let source = "zero\none";
    let location = Location::from_text(source);
    let panel = highlight_source(source, &location, "  ", LogLevel::Info);
    assert_eq!(panel, "1 | zero\n2 | one\n");
}

#[test]
fn source_panel_with_wide_padding_keeps_it() {
    plain();
    let source = "zero\none";
    let location = Location::from_text(source).section(Section::new(0..=1, 0..=0));
    let panel = highlight_source(source, &location, "....", LogLevel::Info);
    assert_eq!(panel, "1...| zero\n2...| one\n");
}

#[test]
fn source_panel_with_empty_padding() {
    plain();
    let source = "zero";
    let location = Location::from_text(source).section(Section::new(0..=0, 0..=0));
    let panel = highlight_source(source, &location, "", LogLevel::Info);
    assert_eq!(panel, "1| zero\n");
}

#[test]
fn source_panel_of_an_empty_source_is_empty() {
    plain();
    let location = Location::from_text("").section(Section::full());
    assert_eq!(highlight_source("", &location, "  ", LogLevel::Error), "");
}

#[test]
fn block_builders() {
    plain();
    assert_eq!(location_line(" ", "a.rs:2:23"), " --> a.rs:2:23\n");
    assert_eq!(bar_line("  "), "  |\n");
    assert_eq!(hint_line("  ", "try again"), "  | help: try again\n");
    let pad: Vec<char> = "   ".chars().collect();
    let numeral: Vec<char> = "7".chars().collect();
    let line: Vec<char> = "text".chars().collect();
    assert_eq!(row(&numeral, &line, &pad), "7  | text\n");
}

#[test]
fn a_number_takes_the_place_of_the_first_characters_of_the_padding() {
    plain();
    let pad: Vec<char> = "abcd".chars().collect();
    let line: Vec<char> = "text".chars().collect();
    let numeral = |s: &str| -> Vec<char> { s.chars().collect() };
    assert_eq!(row(&numeral("7"), &line, &pad), "7bcd| text\n");
    assert_eq!(row(&numeral("42"), &line, &pad), "42cd| text\n");
    assert_eq!(row(&numeral("123"), &line, &pad), "123d| text\n");
    assert_eq!(row(&numeral("1234"), &line, &pad), "1234| text\n");
    assert_eq!(row(&numeral("12345"), &line, &pad), "12345| text\n");
    assert_eq!(row(&numeral("7"), &line, &Vec::new()), "7| text\n");
}

#[test]
fn two_and_three_digit_numbers_in_one_span_share_the_bar() {
    plain();
    let mut text = String::new();
    for i in 1..=120 {
        text.push_str(&format!("l{}\n", i));
    }
    let location = Location::from_source("f.txt", &text).section(Section::new(98..=99, 0..=0));
    let panel = highlight_source(&text, &location, "    ", LogLevel::Error);
    assert_eq!(panel, "99  | l99\n100 | l100\n");
    let rendered = Log::new(LogLevel::Error, "edge").location(location).render("");
    let expected = "Error: edge\n   \
                    --> f.txt:100:1\n    \
                    |\n\
                    99  | l99\n\
                    100 | l100\n    \
                    |\n";
    assert_eq!(rendered, expected);
    for line in rendered.lines().skip(2) {
        assert_eq!(line.find('|'), Some(4));
    }
}

#[test]
fn bars_stand_in_one_column_for_every_width_of_number() {
    plain();
    let mut text = String::new();
    for i in 1..=1001 {
        text.push_str(&format!("l{}\n", i));
    }
    let location = Location::from_source("f.txt", &text).section(Section::new(7..=1000, 0..=0));
    let rendered = Log::new(LogLevel::Info, "long").location(location).hint("h").render("");
    let lines: Vec<&str> = rendered.lines().collect();
    assert_eq!(lines.len(), 2 + 1 + 994 + 2);
    for line in &lines[2..] {
        assert_eq!(line.find('|'), Some(5));
    }
    assert_eq!(lines[3], "8    | l8");
    assert_eq!(lines[5], "10   | l10");
    assert_eq!(lines[95], "100  | l100");
    assert_eq!(lines[996], "1001 | l1001");
}

#[test]
fn highlights_leave_the_text_as_it_is_without_colours() {
    plain();
    let source = "println!(\"\\n\")";
    let section = Section::new(0..=0, 10..=12);
    assert_eq!(bold_highlight(source, &section), source);
    assert_eq!(highlight(source, &section, Color::Red), source);
    assert_eq!(logger::paint::paint("x", Paint::Bold), "x");
    assert_eq!(logger::paint::paint("x", Paint::Tint(Color::Green)), "x");
    assert_eq!(logger::paint::paint("x", Paint::BoldTint(Color::Green)), "x");
    assert_eq!(logger::paint::paint("x", Paint::Tint(Color::BrightRed)), "x");
    assert_eq!(logger::paint::paint("x", Paint::BoldTint(Color::AnsiColor(9))), "x");
    assert_eq!(logger::paint::paint("x", Paint::Tint(Color::TrueColor { r: 1, g: 2, b: 3 })), "x");
}

#[test]
fn rendering_twice_gives_the_same_text() {
    plain();
    let log = Log::new(LogLevel::Warning, "again")
        .location(Location::from_text("a\nb").section(Section::new(0..=1, 0..=1)))
        .hint("h");
    assert_eq!(log.render("t"), log.render("t"));
}

#[test]
fn a_whole_line_is_shown_for_a_location_at_a_line() {
    plain();
    let log = Log::new(LogLevel::Fatal, "index out of bounds")
        .location(Location::at_line("src/main.rs", "fn main() {\n    boom();\n}\n", 2));
    let expected = format!(
        "Fatal: index out of bounds\n --> src/main.rs:2:{}\n  |\n2 |     boom();\n  |\n",
        usize::MAX
    );
    assert_eq!(log.render(""), expected);
}

#[test]
fn an_empty_last_line_has_no_row() {
    plain();
    let source = "a\nb\n\n";
    let location = Location::from_text(source).section(Section::new(0..=2, 0..=0));
    assert_eq!(highlight_source(source, &location, "  ", LogLevel::Error), "1 | a\n2 | b\n");
}

#[test]
fn a_span_over_three_lines_gives_three_rows_in_order() {
    plain();
    let source = "zero\none\ntwo\nthree\nfour";
    let location = Location::from_text(source).section(Section::new(0..=2, 1..=2));
    let panel = highlight_source(source, &location, "  ", LogLevel::Warning);
    assert_eq!(panel, "1 | zero\n2 | one\n3 | two\n");
    assert_eq!(panel.lines().count(), 3);
    assert!(!panel.contains("three") && !panel.contains("four"));
}

#[test]
fn a_span_beyond_the_text_gives_no_row() {
    plain();
    let source = "zero\none";
    let location = Location::from_text(source).section(Section::new(5..=7, 0..=0));
    assert_eq!(highlight_source(source, &location, "  ", LogLevel::Warning), "");
    let backwards = Location::from_text(source).section(Section::new(1..=0, 0..=0));
    assert_eq!(highlight_source(source, &backwards, "  ", LogLevel::Warning), "");
}

#[test]
fn the_end_to_end_entry_has_six_lines() {
    plain();
    let location = Location::from_source("examples/highlighted/bad_code.rs", BAD_CODE)
        .section(Section::new(1..=1, 20..=22));
    let rendered = Log::new(LogLevel::Warning, "Using new line in println! call")
        .location(location)
        .hint("Remove '\\n' in 'println!' call")
        .render("");
    let lines: Vec<&str> = rendered.lines().collect();
    assert_eq!(lines.len(), 6);
    assert_eq!(lines[0], "Warning: Using new line in println! call");
    assert_eq!(lines[1], " --> examples/highlighted/bad_code.rs:2:23");
    assert_eq!(lines[2], "  |");
    assert_eq!(lines[3], "2 |     println!(\"Hello!\\n\");");
    assert_eq!(lines[4], "  |");
    assert_eq!(lines[5], "  | help: Remove '\\n' in 'println!' call");
}
