use logger::utils::range_contains;
use logger::{Color, Location, Log, LogLevel, Section};

#[test]
fn new_takes_the_bounds_of_both_ranges() {
    let section = Section::new(1..=3, 20..=22);
    assert_eq!(section.start_line, 1);
    assert_eq!(section.start_col, 20);
    assert_eq!(section.end_line, 3);
    assert_eq!(section.end_col, 22);
}

#[test]
fn merge_takes_the_start_of_one_and_the_end_of_the_other() {
    let a = Section::new(1..=2, 3..=4);
    let b = Section::new(5..=6, 7..=8);
    let merged = Section::merge_start_end(&a, &b);
    assert_eq!(merged, Section::new(1..=6, 3..=8));
    let backwards = Section::merge_start_end(&b, &a);
    assert_eq!(backwards.start_line, 5);
    assert_eq!(backwards.start_col, 7);
    assert_eq!(backwards.end_line, 2);
    assert_eq!(backwards.end_col, 4);
}

#[test]
fn merge_with_itself_is_the_section() {
    let a = Section::new(1..=2, 3..=4);
    assert_eq!(Section::merge_start_end(&a, &a), a);
}

#[test]
fn full_covers_everything() {
    let full = Section::full();
    assert_eq!(full.lines(), usize::MIN..=usize::MAX);
    assert_eq!(full.cols(), usize::MIN..=usize::MAX);
}

#[test]
fn lines_and_cols_project_the_section() {
    let section = Section::new(1..=3, 20..=22);
    assert_eq!(section.lines(), 1..=3);
    assert_eq!(section.cols(), 20..=22);
}

#[test]
fn set_lines_keeps_the_columns() {
    let mut section = Section::new(1..=3, 20..=22);
    section.set_lines(7..=9);
    assert_eq!(section.lines(), 7..=9);
    assert_eq!(section.cols(), 20..=22);
}

#[test]
fn set_cols_keeps_the_lines() {
    let mut section = Section::new(1..=3, 20..=22);
    section.set_cols(0..=5);
    assert_eq!(section.lines(), 1..=3);
    assert_eq!(section.cols(), 0..=5);
}

#[test]
fn sections_are_equal_when_their_ranges_are() {
    assert_eq!(Section::new(1..=3, 20..=22), Section::new(1..=3, 20..=22));
    assert_ne!(Section::new(1..=3, 20..=22), Section::new(1..=3, 20..=23));
    assert_ne!(Section::new(1..=3, 20..=22), Section::new(0..=3, 20..=22));
    let copy = Section::new(1..=3, 20..=22).clone();
    assert_eq!(copy, Section::new(1..=3, 20..=22));
}

#[test]
fn describe_gives_both_points() {
    assert_eq!(Section::new(1..=3, 20..=22).describe(), "[1, 20] - [3, 22]");
    assert_eq!(
        Section::full().describe(),
        format!("[0, 0] - [{}, {}]", usize::MAX, usize::MAX)
    );
}

#[test]
fn location_display() {
    let location = Location::from_source("a.rs", "").section(Section::new(1..=1, 20..=22));
    assert_eq!(location.to_string(), "a.rs:2:23");
}

#[test]
fn location_display_uses_the_end_of_the_section() {
    let location = Location::from_source("dir/b.rs", "").section(Section::new(3..=9, 0..=99));
    assert_eq!(location.to_string(), "dir/b.rs:10:100");
}

#[test]
fn location_display_without_section_or_path() {
    assert_eq!(Location::from_source("a.rs", "text").to_string(), "a.rs");
    assert_eq!(Location::from_text("text").to_string(), "unknown");
    assert_eq!(
        Location::from_text("text").section(Section::new(0..=0, 0..=0)).to_string(),
        "unknown:1:1"
    );
}

#[test]
fn location_constructors() {
    let inline = Location::from_text("body");
    assert_eq!(inline.path, None);
    assert_eq!(inline.text, "body");
    assert_eq!(inline.section, None);
    let file = Location::from_source("p.rs", "body");
    assert_eq!(file.path.as_deref(), Some("p.rs"));
    assert_eq!(file.text, "body");
    assert_eq!(file.section, None);
    let pointed = file.clone().section(Section::new(0..=1, 2..=3));
    assert_eq!(pointed.section, Some(Section::new(0..=1, 2..=3)));
    assert_eq!(pointed.path, file.path);
    assert_eq!(pointed.text, file.text);
    assert_eq!(file.clone(), file);
}

#[test]
fn range_contains_its_bounds_and_what_is_between() {
    let range = 1..=3;
    assert!(range_contains(&range, 1));
    assert!(range_contains(&range, 2));
    assert!(range_contains(&range, 3));
    assert!(!range_contains(&range, 0));
    assert!(!range_contains(&range, 4));
}

#[test]
fn range_contains_on_a_reversed_range_is_false() {
    #[allow(clippy::reversed_empty_ranges)]
    let range = 3..=1;
    assert!(!range_contains(&range, 2));
    assert!(range_contains(&(0..=usize::MAX), usize::MAX));
}

#[test]
fn levels_are_ordered_by_severity() {
    let levels = [
        LogLevel::Trace,
        LogLevel::Debug,
        LogLevel::Info,
        LogLevel::Warning,
        LogLevel::Error,
        LogLevel::Fatal,
    ];
    for (i, level) in levels.iter().enumerate() {
        assert_eq!(level.severity() as usize, i);
    }
    for pair in levels.windows(2) {
        assert!(pair[0] < pair[1]);
    }
}

#[test]
fn levels_have_names_and_colours() {
    assert_eq!(LogLevel::Trace.to_string(), "Trace");
    assert_eq!(LogLevel::Debug.to_string(), "Debug");
    assert_eq!(LogLevel::Info.to_string(), "Info");
    assert_eq!(LogLevel::Warning.to_string(), "Warning");
    assert_eq!(LogLevel::Error.to_string(), "Error");
    assert_eq!(LogLevel::Fatal.to_string(), "Fatal");
    assert_eq!(LogLevel::Trace.color(), Color::Cyan);
    assert_eq!(LogLevel::Debug.color(), Color::Blue);
    assert_eq!(LogLevel::Info.color(), Color::Green);
    assert_eq!(LogLevel::Warning.color(), Color::Yellow);
    assert_eq!(LogLevel::Error.color(), Color::Red);
    assert_eq!(LogLevel::Fatal.color(), Color::Magenta);
}

#[test]
fn at_line_points_at_the_whole_line() {
    let location = Location::at_line("src/main.rs", "a\nb\nc", 2);
    assert_eq!(location.path.as_deref(), Some("src/main.rs"));
    assert_eq!(location.text, "a\nb\nc");
    assert_eq!(location.section, Some(Section::new(1..=1, 0..=usize::MAX - 1)));
    assert_eq!(location.to_string(), format!("src/main.rs:2:{}", usize::MAX));
}

#[test]
fn a_span_that_ends_at_the_greatest_number_cannot_be_displayed() {
    assert!(Location::from_text("t").is_printable());
    assert!(Location::from_text("t").section(Section::new(0..=5, 0..=9)).is_printable());
    assert!(!Location::from_text("t").section(Section::full()).is_printable());
    assert!(!Location::from_text("t").section(Section::new(0..=usize::MAX, 0..=1)).is_printable());
    assert!(!Location::from_text("t").section(Section::new(0..=1, 0..=usize::MAX)).is_printable());
    assert!(Log::new(LogLevel::Info, "m").is_printable());
    assert!(!Log::new(LogLevel::Info, "m")
        .location(Location::from_text("t").section(Section::full()))
        .is_printable());
}
