//! Compiler-style diagnostics for the console.
//!
//! A [`Log`] holds a severity, a message and, optionally, a place in a source
//! text and a hint. [`Log::render`] lays it out as a block of text: a header,
//! the place, the lines of the source that the place spans with the span
//! marked, and the hint.

use vstd::prelude::*;
use vstd::string::StringExecFns;

pub mod layout;
pub mod level;
pub mod location;
pub mod paint;
pub mod text;
pub mod utils;

pub use level::LogLevel;
pub use location::{Location, LocationView, Section};
pub use paint::{Color, Paint};

use layout::{
    are_rows, bar_line, header, hint_line, is_bar_line, is_header, is_hint_line,
    is_location_line, is_one_row_panel, is_panel, is_source_panel, lemma_header_shows,
    lemma_occurs_within, lemma_one_line_span_gives_one_row, location_line, occurs_in, row,
    span_of,
};
use paint::{has_reset, reset_code, start_code};
use text::{chars_of, decimal, decimal_of, fuse, lines_of, spaces, split_lines, views};
use utils::{bold_highlight, dedent, highlight, range_contains, remove_excess_tabs};

verus! {

/// One diagnostic: what happened, how severe it is, where, and what to do
/// about it.
#[derive(Debug)]
pub struct Log {
    pub level: LogLevel,
    pub message: String,
    pub location: Option<Location>,
    pub hint: Option<String>,
}

/// The mathematical content of a [`Log`].
pub struct LogView {
    pub level: LogLevel,
    pub message: Seq<char>,
    pub location: Option<LocationView>,
    pub hint: Option<Seq<char>>,
}

impl LogView {
    /// The span that the entry points at, if it has a location with one.
    pub open spec fn section(self) -> Option<Section> {
        match self.location {
            Some(location) => location.section,
            None => None,
        }
    }

    /// The width reserved for line numbers: the number of digits of the
    /// one-based number of the span's last line, and 0 without a span.
    pub open spec fn gutter_width(self) -> nat {
        match self.section() {
            Some(section) => decimal((section.end_line + 1) as nat).len(),
            None => 0,
        }
    }

    /// True if the location, where there is one, can be displayed.
    pub open spec fn is_printable(self) -> bool {
        self.location matches Some(location) ==> location.is_printable()
    }
}

impl View for Log {
    type V = LogView;

    open spec fn view(&self) -> LogView {
        LogView {
            level: self.level,
            message: self.message@,
            location: match self.location {
                Some(location) => Some(location@),
                None => None,
            },
            hint: match self.hint {
                Some(hint) => Some(hint@),
                None => None,
            },
        }
    }
}

/// The snippet of an entry: a bar line, then the source panel for the source
/// without its common indent.
pub open spec fn is_snippet(
    text: Seq<char>,
    section: Section,
    padding: Seq<char>,
    level: LogLevel,
    out: Seq<char>,
) -> bool {
    exists|bar: Seq<char>, panel: Seq<char>|
        #![trigger is_bar_line(padding, bar), is_source_panel(dedent(text), Some(section), padding, level, panel)]
        is_bar_line(padding, bar) && is_source_panel(
            dedent(text),
            Some(section),
            padding,
            level,
            panel,
        ) && out == bar + panel
}

/// A hint below a snippet: a bar line, then the hint line.
pub open spec fn is_framed_hint(padding: Seq<char>, hint: Seq<char>, out: Seq<char>) -> bool {
    exists|bar: Seq<char>, line: Seq<char>|
        #![trigger is_bar_line(padding, bar), is_hint_line(padding, hint, line)]
        is_bar_line(padding, bar) && is_hint_line(padding, hint, line) && out == bar + line
}

/// What closes an entry. A hint gives the hint line, after a bar line where a
/// snippet was shown. Without a hint a snippet is closed by a bar line, and
/// without either nothing follows.
pub open spec fn is_closing(hint: Option<Seq<char>>, framed: bool, padding: Seq<char>, out: Seq<char>) -> bool {
    match hint {
        Some(hint) => if framed {
            is_framed_hint(padding, hint, out)
        } else {
            is_hint_line(padding, hint, out)
        },
        None => if framed {
            is_bar_line(padding, out)
        } else {
            out == Seq::<char>::empty()
        },
    }
}

/// True if the four blocks are those of `log`: the header; the location line
/// where there is a location; the snippet where the location has a span; and
/// the closing. `tag` is the name of the application, empty for none.
pub open spec fn is_laid_out(
    log: LogView,
    tag: Seq<char>,
    head: Seq<char>,
    place: Seq<char>,
    snippet: Seq<char>,
    closing: Seq<char>,
) -> bool {
    let width = log.gutter_width();
    &&& is_header(log.level, log.message, tag, head)
    &&& match log.location {
        Some(location) => is_location_line(spaces(width), location.display(), place),
        None => place == Seq::<char>::empty(),
    }
    &&& match log.location {
        Some(location) => match location.section {
            Some(section) => is_snippet(
                location.text,
                section,
                spaces(width + 1),
                log.level,
                snippet,
            ),
            None => snippet == Seq::<char>::empty(),
        },
        None => snippet == Seq::<char>::empty(),
    }
    &&& is_closing(log.hint, log.section() is Some, spaces(width + 1), closing)
}

/// True if `out` is a rendering of `log`: its four blocks one after another.
pub open spec fn is_rendering(log: LogView, tag: Seq<char>, out: Seq<char>) -> bool {
    exists|head: Seq<char>, place: Seq<char>, snippet: Seq<char>, closing: Seq<char>| #[trigger]
        is_laid_out(log, tag, head, place, snippet, closing) && out == head + place + snippet
            + closing
}

/// What every rendering shows of its header, whichever forms the styled
/// pieces took.
///
/// The rendering starts with the header. It holds the level's name; the
/// message as it was given, unless the message itself holds a reset code; and,
/// where a tag without a reset code is set, the name followed by the tag in
/// square brackets, with nothing between them but the codes that end the
/// colour and take up the bold again.
pub proof fn lemma_rendering_shows_header(log: LogView, tag: Seq<char>, out: Seq<char>)
    requires
        is_rendering(log, tag, out),
    ensures
        exists|head: Seq<char>| #[trigger]
            is_header(log.level, log.message, tag, head) && head.is_prefix_of(out),
        occurs_in(log.level.name(), out),
        !has_reset(log.message) ==> occurs_in(log.message, out),
        tag.len() > 0 && !has_reset(tag) ==> {
            let bracketed = seq!['['] + tag + seq![']'];
            ||| occurs_in(log.level.name() + bracketed, out)
            ||| occurs_in(log.level.name() + reset_code() + bracketed, out)
            ||| occurs_in(
                log.level.name() + reset_code() + start_code(Paint::Bold) + bracketed,
                out,
            )
        },
{
    let (head, place, snippet, closing) = choose|
        head: Seq<char>,
        place: Seq<char>,
        snippet: Seq<char>,
        closing: Seq<char>,
    | #[trigger]
        is_laid_out(log, tag, head, place, snippet, closing) && out == head + place + snippet
            + closing;
    let none = Seq::<char>::empty();
    let rest = place + snippet + closing;
    let name = log.level.name();
    assert(none + head + rest =~= out);
    assert(head.is_prefix_of(out));
    lemma_header_shows(log.level, log.message, tag, head);
    lemma_occurs_within(name, head, none, rest);
    if !has_reset(log.message) {
        lemma_occurs_within(log.message, head, none, rest);
    }
    if tag.len() > 0 && !has_reset(tag) {
        let bracketed = seq!['['] + tag + seq![']'];
        if occurs_in(name + bracketed, head) {
            lemma_occurs_within(name + bracketed, head, none, rest);
        } else if occurs_in(name + reset_code() + bracketed, head) {
            lemma_occurs_within(name + reset_code() + bracketed, head, none, rest);
        } else {
            lemma_occurs_within(
                name + reset_code() + start_code(Paint::Bold) + bracketed,
                head,
                none,
                rest,
            );
        }
    }
}

/// The rendering of an entry whose span lies on one line of its source: the
/// header, the location line, a bar line, the one row of that line, and the
/// closing, in this order and with nothing between them.
pub proof fn lemma_rendering_of_one_line_span(log: LogView, tag: Seq<char>, out: Seq<char>)
    requires
        is_rendering(log, tag, out),
        log.section() matches Some(section) && section.start_line == section.end_line
            && section.start_line < lines_of(dedent(log.location->0.text)).len(),
    ensures
        exists|head: Seq<char>, place: Seq<char>, bar: Seq<char>, panel: Seq<char>, closing: Seq<char>|
            #![trigger is_header(log.level, log.message, tag, head), is_location_line(spaces(log.gutter_width()), log.location->0.display(), place), is_bar_line(spaces(log.gutter_width() + 1), bar), is_one_row_panel(dedent(log.location->0.text), log.section()->0, spaces(log.gutter_width() + 1), log.level, panel), is_closing(log.hint, true, spaces(log.gutter_width() + 1), closing)]
            {
                let padding = spaces(log.gutter_width() + 1);
                &&& is_header(log.level, log.message, tag, head)
                &&& is_location_line(spaces(log.gutter_width()), log.location->0.display(), place)
                &&& is_bar_line(padding, bar)
                &&& is_one_row_panel(
                    dedent(log.location->0.text),
                    log.section()->0,
                    padding,
                    log.level,
                    panel,
                )
                &&& is_closing(log.hint, true, padding, closing)
                &&& out == head + place + bar + panel + closing
            },
{
    let (head, place, snippet, closing) = choose|
        head: Seq<char>,
        place: Seq<char>,
        snippet: Seq<char>,
        closing: Seq<char>,
    | #[trigger]
        is_laid_out(log, tag, head, place, snippet, closing) && out == head + place + snippet
            + closing;
    let location = log.location->0;
    let section = location.section->0;
    let padding = spaces(log.gutter_width() + 1);
    let source = dedent(location.text);
    assert(is_snippet(location.text, section, padding, log.level, snippet));
    let (bar, panel) = choose|bar: Seq<char>, panel: Seq<char>|
        #![trigger is_bar_line(padding, bar), is_source_panel(source, Some(section), padding, log.level, panel)]
        is_bar_line(padding, bar) && is_source_panel(
            source,
            Some(section),
            padding,
            log.level,
            panel,
        ) && snippet == bar + panel;
    lemma_one_line_span_gives_one_row(source, section, padding, log.level, panel);
    assert(out =~= head + place + bar + panel + closing);
}

/// A string of `n` spaces.
fn blanks(n: usize) -> (s: String)
    ensures
        s@ == spaces(n as nat),
{
    let mut s = String::new();
    let mut i: usize = 0;
    while i < n
        invariant
            i <= n,
            s@ == spaces(i as nat),
        decreases n - i,
    {
        s.push(' ');
        proof {
            assert(s@ =~= spaces((i + 1) as nat));
        }
        i += 1;
    }
    s
}

impl Log {
    /// An entry with a level and a message, without location or hint.
    pub fn new(level: LogLevel, message: &str) -> (log: Self)
        ensures
            log@ == (LogView { level, message: message@, location: None, hint: None }),
    {
        Log { level, message: String::from_str(message), location: None, hint: None }
    }

    /// The same entry with another message.
    pub fn message(self, message: &str) -> (log: Self)
        ensures
            log@ == (LogView { message: message@, ..self@ }),
    {
        let mut log = self;
        log.message = String::from_str(message);
        log
    }

    /// The same entry, pointing at `location`.
    pub fn location(self, location: Location) -> (log: Self)
        ensures
            log@ == (LogView { location: Some(location@), ..self@ }),
    {
        let mut log = self;
        log.location = Some(location);
        log
    }

    /// The same entry with a hint.
    pub fn hint(self, hint: &str) -> (log: Self)
        ensures
            log@ == (LogView { hint: Some(hint@), ..self@ }),
    {
        let mut log = self;
        log.hint = Some(String::from_str(hint));
        log
    }

    /// True if the entry can be rendered: its location, where it has one, can
    /// be displayed.
    pub fn is_printable(&self) -> (b: bool)
        ensures
            b == self@.is_printable(),
    {
        match &self.location {
            Some(location) => location.is_printable(),
            None => true,
        }
    }

    /// The text of the entry, ready to be printed.
    ///
    /// `app_name` is the name of the application that reports; where it is not
    /// empty it follows the level in square brackets.
    pub fn render(&self, app_name: &str) -> (out: String)
        requires
            self@.is_printable(),
        ensures
            is_rendering(self@, app_name@, out@),
    {
        let mut width: usize = 0;
        if let Some(location) = &self.location {
            if let Some(section) = &location.section {
                width = decimal_of(section.end_line + 1).len();
            }
        }
        let indent = blanks(width);
        let mut padding = indent.clone();
        padding.push(' ');
        proof {
            assert(padding@ =~= spaces(self@.gutter_width() + 1));
        }
        let head = header(self.level, self.message.as_str(), app_name);
        let mut place = String::new();
        let mut snippet = String::new();
        let mut framed = false;
        if let Some(location) = &self.location {
            let shown = location.to_string();
            place = location_line(indent.as_str(), shown.as_str());
            if location.section.is_some() {
                framed = true;
                let bar = bar_line(padding.as_str());
                let source = remove_excess_tabs(location.text.as_str());
                let panel = highlight_source(
                    source.as_str(),
                    location,
                    padding.as_str(),
                    self.level,
                );
                snippet = bar;
                snippet.append(panel.as_str());
                proof {
                    assert(is_snippet(
                        location@.text,
                        location@.section->0,
                        padding@,
                        self.level,
                        snippet@,
                    ));
                }
            }
        }
        let closing = match &self.hint {
            Some(hint) => {
                let line = hint_line(padding.as_str(), hint.as_str());
                if framed {
                    let bar = bar_line(padding.as_str());
                    let mut closing = bar.clone();
                    closing.append(line.as_str());
                    proof {
                        assert(is_bar_line(padding@, bar@) && is_hint_line(padding@, hint@, line@));
                        assert(closing@ == bar@ + line@);
                        assert(is_framed_hint(padding@, hint@, closing@));
                    }
                    closing
                } else {
                    line
                }
            },
            None => {
                if framed {
                    bar_line(padding.as_str())
                } else {
                    String::new()
                }
            },
        };
        proof {
            assert(is_closing(self@.hint, framed, padding@, closing@));
        }
        let mut out = head;
        out.append(place.as_str());
        out.append(snippet.as_str());
        out.append(closing.as_str());
        proof {
            assert(width == self@.gutter_width());
            assert(is_header(self@.level, self@.message, app_name@, head@));
            assert(framed == (self@.section() is Some));
            assert(is_laid_out(self@, app_name@, head@, place@, snippet@, closing@));
        }
        out
    }
}

/// The source panel of an entry: the lines of `source` that the location's
/// span touches, each behind its line number and the gutter's bar, with the
/// span marked in the style that belongs to `level`.
///
/// `padding` is what stands before the bar where there is no line number; a
/// line number takes the place of its first characters, so that the bars of
/// all rows stand in one column as long as no number is longer than the
/// padding. A location without a span shows every line, marked whole.
pub fn highlight_source(source: &str, location: &Location, padding: &str, level: LogLevel) -> (out:
    String)
    ensures
        is_source_panel(source@, location@.section, padding@, level, out@),
{
    let section = match location.section {
        Some(section) => section,
        None => Section::full(),
    };
    let highlighted = match level {
        LogLevel::Trace | LogLevel::Debug | LogLevel::Info => bold_highlight(source, &section),
        _ => highlight(source, &section, level.color()),
    };
    let chars = chars_of(highlighted.as_str());
    let lines = split_lines(&chars);
    let pad = chars_of(padding);
    let window = section.lines();
    let mut out = String::new();
    let ghost mut rows: Seq<Seq<char>> = Seq::empty();
    let mut idx: usize = 0;
    while idx < lines.len()
        invariant
            idx <= lines.len(),
            pad@ == padding@,
            window@.start == section.start_line,
            window@.end == section.end_line,
            !window@.exhausted,
            are_rows(views(lines@).take(idx as int), section, padding@, rows),
            out@ == fuse(rows),
        decreases lines.len() - idx,
    {
        let ghost rows_before = rows;
        if range_contains(&window, idx) {
            let numeral = decimal_of(idx + 1);
            let row = row(&numeral, &lines[idx], &pad);
            out.append(row.as_str());
            proof {
                rows = rows.push(row@);
            }
        } else {
            proof {
                rows = rows.push(Seq::empty());
            }
        }
        proof {
            assert(rows.drop_last() =~= rows_before);
        }
        idx += 1;
    }
    proof {
        assert(views(lines@).take(lines.len() as int) =~= views(lines@));
        assert(is_panel(lines_of(highlighted@), section, padding@, out@));
        assert(section == span_of(location@.section));
    }
    out
}

} // verus!
