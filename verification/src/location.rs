//! Where a diagnostic points: a span of lines and columns, and the source that
//! holds it.

use crate::text::{decimal, decimal_of, push_chars};
use std::ops::RangeInclusive;
use vstd::prelude::*;
use vstd::string::StringExecFns;

verus! {

/// `RangeInclusive::start` returns the lower bound of a range that has not
/// been iterated to exhaustion.
pub assume_specification<Idx>[ RangeInclusive::<Idx>::start ](r: &RangeInclusive<Idx>) -> (ret:
    &Idx)
    ensures
        !r@.exhausted ==> *ret == r@.start,
;

/// `RangeInclusive::end` returns the upper bound of a range that has not been
/// iterated to exhaustion.
pub assume_specification<Idx>[ RangeInclusive::<Idx>::end ](r: &RangeInclusive<Idx>) -> (ret: &Idx)
    ensures
        !r@.exhausted ==> *ret == r@.end,
;

/// A span of source text from a start point to an end point, each a zero-based
/// line and column.
///
/// The span is meant to run forwards, but nothing enforces that: a span whose
/// end line lies before its start line touches no line, and columns that run
/// backwards on a line cover none of its characters.
#[derive(Clone, Copy, Debug, PartialEq, Eq, Structural)]
pub struct Section {
    pub start_line: usize,
    pub start_col: usize,
    pub end_line: usize,
    pub end_col: usize,
}

impl Section {
    /// True if line `i` lies in the span's range of lines.
    pub open spec fn touches(self, i: int) -> bool {
        self.start_line <= i <= self.end_line
    }

    /// The debug form of the span: `[line, col] - [line, col]`.
    pub open spec fn description(self) -> Seq<char> {
        seq!['['] + decimal(self.start_line as nat) + seq![',', ' '] + decimal(
            self.start_col as nat,
        ) + seq![']', ' ', '-', ' ', '['] + decimal(self.end_line as nat) + seq![',', ' ']
            + decimal(self.end_col as nat) + seq![']']
    }

    /// The span from the lower bounds of the two ranges to their upper bounds.
    pub fn new(lines: RangeInclusive<usize>, cols: RangeInclusive<usize>) -> (s: Self)
        ensures
            !lines@.exhausted ==> s.start_line == lines@.start && s.end_line == lines@.end,
            !cols@.exhausted ==> s.start_col == cols@.start && s.end_col == cols@.end,
    {
        Section {
            start_line: *lines.start(),
            start_col: *cols.start(),
            end_line: *lines.end(),
            end_col: *cols.end(),
        }
    }

    /// The span from where `start` starts to where `end` ends, whichever of the
    /// two comes first in the source.
    pub fn merge_start_end(start: &Self, end: &Self) -> (s: Self)
        ensures
            s.start_line == start.start_line,
            s.start_col == start.start_col,
            s.end_line == end.end_line,
            s.end_col == end.end_col,
    {
        Section {
            start_line: start.start_line,
            start_col: start.start_col,
            end_line: end.end_line,
            end_col: end.end_col,
        }
    }

    /// The span that covers everything: from the least line and column to the
    /// greatest.
    pub fn full() -> (s: Self)
        ensures
            s.start_line == 0,
            s.start_col == 0,
            s.end_line == usize::MAX,
            s.end_col == usize::MAX,
            forall|i: int| 0 <= i <= usize::MAX ==> s.touches(i),
    {
        Section { start_line: 0, start_col: 0, end_line: usize::MAX, end_col: usize::MAX }
    }

    /// The span's range of lines.
    pub fn lines(&self) -> (r: RangeInclusive<usize>)
        ensures
            r@.start == self.start_line,
            r@.end == self.end_line,
            !r@.exhausted,
    {
        RangeInclusive::new(self.start_line, self.end_line)
    }

    /// The span's range of columns: the start point's column and the end
    /// point's column.
    pub fn cols(&self) -> (r: RangeInclusive<usize>)
        ensures
            r@.start == self.start_col,
            r@.end == self.end_col,
            !r@.exhausted,
    {
        RangeInclusive::new(self.start_col, self.end_col)
    }

    /// Replaces the range of lines and keeps the columns.
    pub fn set_lines(&mut self, lines: RangeInclusive<usize>)
        ensures
            final(self).start_col == old(self).start_col,
            final(self).end_col == old(self).end_col,
            !lines@.exhausted ==> final(self).start_line == lines@.start && final(self).end_line
                == lines@.end,
    {
        self.start_line = *lines.start();
        self.end_line = *lines.end();
    }

    /// Replaces the range of columns and keeps the lines.
    pub fn set_cols(&mut self, cols: RangeInclusive<usize>)
        ensures
            final(self).start_line == old(self).start_line,
            final(self).end_line == old(self).end_line,
            !cols@.exhausted ==> final(self).start_col == cols@.start && final(self).end_col
                == cols@.end,
    {
        self.start_col = *cols.start();
        self.end_col = *cols.end();
    }

    /// The debug form of the span.
    pub fn describe(&self) -> (s: String)
        ensures
            s@ == self.description(),
    {
        let mut s = String::from_str("[");
        let n = decimal_of(self.start_line);
        push_chars(&mut s, &n, 0, n.len());
        s.append(", ");
        let n = decimal_of(self.start_col);
        push_chars(&mut s, &n, 0, n.len());
        s.append("] - [");
        let n = decimal_of(self.end_line);
        push_chars(&mut s, &n, 0, n.len());
        s.append(", ");
        let n = decimal_of(self.end_col);
        push_chars(&mut s, &n, 0, n.len());
        s.append("]");
        proof {
            reveal_strlit("[");
            reveal_strlit(", ");
            reveal_strlit("] - [");
            reveal_strlit("]");
            assert(s@ =~= self.description());
        }
        s
    }
}

/// A reference into a source: where it came from, its full text, and the span
/// to point at.
#[derive(Debug, PartialEq, Eq)]
pub struct Location {
    /// The file the text was read from; `None` for inline text.
    pub path: Option<String>,
    /// The full source text.
    pub text: String,
    /// The span to highlight; without one no snippet is shown.
    pub section: Option<Section>,
}

/// The mathematical content of a [`Location`].
pub struct LocationView {
    pub path: Option<Seq<char>>,
    pub text: Seq<char>,
    pub section: Option<Section>,
}

impl LocationView {
    /// The path, or `unknown` where there is none.
    pub open spec fn origin(self) -> Seq<char> {
        match self.path {
            Some(path) => path,
            None => "unknown"@,
        }
    }

    /// True if the one-based numbers of the span's end point are representable.
    pub open spec fn is_printable(self) -> bool {
        self.section matches Some(section) ==> section.end_line < usize::MAX && section.end_col
            < usize::MAX
    }

    /// What the location is displayed as: the origin and, where there is a
    /// span, the one-based line and column of its end point, separated by
    /// colons.
    pub open spec fn display(self) -> Seq<char> {
        match self.section {
            Some(section) => self.origin() + seq![':'] + decimal((section.end_line + 1) as nat)
                + seq![':'] + decimal((section.end_col + 1) as nat),
            None => self.origin(),
        }
    }
}

impl View for Location {
    type V = LocationView;

    open spec fn view(&self) -> LocationView {
        LocationView {
            path: match self.path {
                Some(path) => Some(path@),
                None => None,
            },
            text: self.text@,
            section: self.section,
        }
    }
}

impl Clone for Location {
    fn clone(&self) -> (l: Self)
        ensures
            l@ == self@,
    {
        Location {
            path: match &self.path {
                Some(path) => Some(path.clone()),
                None => None,
            },
            text: self.text.clone(),
            section: self.section,
        }
    }
}

impl Location {
    /// A location in inline text, which has no path.
    pub fn from_text(text: &str) -> (l: Self)
        ensures
            l@ == (LocationView { path: None, text: text@, section: None }),
    {
        Location { path: None, text: String::from_str(text), section: None }
    }

    /// A location in the text of the file at `path`.
    pub fn from_source(path: &str, text: &str) -> (l: Self)
        ensures
            l@ == (LocationView { path: Some(path@), text: text@, section: None }),
    {
        Location { path: Some(String::from_str(path)), text: String::from_str(text), section: None }
    }

    /// A location in the text of the file at `path` that points at the whole
    /// of one line, given by its one-based number.
    ///
    /// The span starts at column 0 and ends at the greatest column that can
    /// still be displayed, so that it covers the line whatever its length.
    pub fn at_line(path: &str, text: &str, line: usize) -> (l: Self)
        requires
            line >= 1,
        ensures
            l@ == (LocationView {
                path: Some(path@),
                text: text@,
                section: Some(
                    Section {
                        start_line: (line - 1) as usize,
                        start_col: 0,
                        end_line: (line - 1) as usize,
                        end_col: (usize::MAX - 1) as usize,
                    },
                ),
            }),
            l@.is_printable(),
    {
        Location {
            path: Some(String::from_str(path)),
            text: String::from_str(text),
            section: Some(
                Section {
                    start_line: line - 1,
                    start_col: 0,
                    end_line: line - 1,
                    end_col: usize::MAX - 1,
                },
            ),
        }
    }

    /// The same location, pointing at `section`.
    pub fn section(self, section: Section) -> (l: Self)
        ensures
            l@ == (LocationView { section: Some(section), ..self@ }),
    {
        let mut l = self;
        l.section = Some(section);
        l
    }

    /// True if the location can be displayed: the one-based line and column of
    /// the span's end point, where there is a span, are representable.
    pub fn is_printable(&self) -> (b: bool)
        ensures
            b == self@.is_printable(),
    {
        match &self.section {
            Some(section) => section.end_line < usize::MAX && section.end_col < usize::MAX,
            None => true,
        }
    }

    /// The location as it is displayed.
    pub fn to_string(&self) -> (s: String)
        requires
            self@.is_printable(),
        ensures
            s@ == self@.display(),
    {
        let mut s = match &self.path {
            Some(path) => path.clone(),
            None => String::from_str("unknown"),
        };
        if let Some(section) = &self.section {
            s.append(":");
            let n = decimal_of(section.end_line + 1);
            push_chars(&mut s, &n, 0, n.len());
            s.append(":");
            let n = decimal_of(section.end_col + 1);
            push_chars(&mut s, &n, 0, n.len());
            proof {
                reveal_strlit(":");
                assert(s@ =~= self@.display());
            }
        }
        s
    }
}

} // verus!
