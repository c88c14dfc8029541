//! Text transforms behind a rendered snippet: styling the characters inside a
//! span, and removing the indentation that all lines share.
//!
//! Both work on the whole source text, so that line numbers stay those of the
//! source. Columns count characters.

use crate::location::Section;
use crate::paint::{lemma_painted_is_single, paint, paints, Color, Paint};
use crate::text::{
    chars_of, chomp, join_lines, lemma_first_newline, lemma_join_push, lemma_lines_are_single,
    lines_of, push_chars, single_line, split_lines, string_of, views,
};
use std::ops::RangeInclusive;
use vstd::prelude::*;

verus! {

/// The first column of line `i` that `section` covers, in a line of `len`
/// characters: the start column on the span's first line, column 0 on the
/// others; never beyond the end of the line.
pub open spec fn mark_from(section: Section, i: int, len: int) -> int {
    let col = if i == section.start_line {
        section.start_col as int
    } else {
        0
    };
    if col <= len {
        col
    } else {
        len
    }
}

/// The column of line `i` at which `section` stops covering it: the end column
/// on the span's last line, the end of the line on the others; never beyond
/// the end of the line, and never before `mark_from`.
pub open spec fn mark_to(section: Section, i: int, len: int) -> int {
    let col = if i == section.end_line {
        section.end_col as int
    } else {
        len
    };
    let to = if col <= len {
        col
    } else {
        len
    };
    if mark_from(section, i, len) <= to {
        to
    } else {
        mark_from(section, i, len)
    }
}

/// The characters of line `i` that `section` covers.
pub open spec fn covered(line: Seq<char>, i: int, section: Section) -> Seq<char> {
    line.subrange(mark_from(section, i, line.len() as int), mark_to(section, i, line.len() as int))
}

/// Line `i` with `styled` in place of the characters that `section` covers.
/// A line outside the span's range of lines stays as it is.
pub open spec fn marked_line(line: Seq<char>, i: int, section: Section, styled: Seq<char>) -> Seq<
    char,
> {
    if section.touches(i) {
        line.take(mark_from(section, i, line.len() as int)) + styled + line.skip(
            mark_to(section, i, line.len() as int),
        )
    } else {
        line
    }
}

/// True if `out` is the text of `lines` in which, on every line in the span's
/// range of lines, `styled[i]` replaces the covered characters, and `styled[i]`
/// is a styled form of those characters by `rel`.
pub open spec fn is_marking(
    lines: Seq<Seq<char>>,
    section: Section,
    rel: spec_fn(Seq<char>, Seq<char>) -> bool,
    styled: Seq<Seq<char>>,
    out: Seq<char>,
) -> bool {
    &&& styled.len() == lines.len()
    &&& forall|i: int|
        0 <= i < lines.len() && section.touches(i) ==> rel(
            covered(lines[i], i, section),
            #[trigger] styled[i],
        )
    &&& out == join_lines(
        Seq::new(lines.len(), |i: int| marked_line(lines[i], i, section, styled[i])),
    )
}

/// True if `out` is `text` with the characters inside `section` replaced by a
/// styled form of them, line by line, where `rel(piece, styled)` says which
/// forms a piece can take. Everything outside the span is unchanged.
pub open spec fn marks(
    text: Seq<char>,
    section: Section,
    rel: spec_fn(Seq<char>, Seq<char>) -> bool,
    out: Seq<char>,
) -> bool {
    exists|styled: Seq<Seq<char>>| #[trigger] is_marking(lines_of(text), section, rel, styled, out)
}

/// True if `piece` is what `section` covers of some line of `text` in its
/// range of lines.
pub open spec fn is_covered_piece(text: Seq<char>, section: Section, piece: Seq<char>) -> bool {
    exists|i: int|
        0 <= i < lines_of(text).len() && section.touches(i) && piece == #[trigger] covered(
            lines_of(text)[i],
            i,
            section,
        )
}

/// True if `style` can return a string with the characters `out` when called
/// on a string with the characters `piece`.
pub open spec fn styled_by<F: Fn(&str) -> String>(style: F, piece: Seq<char>, out: Seq<char>) -> bool {
    exists|p: &str, o: String| p@ == piece && o@ == out && #[trigger] call_ensures(style, (p,), o)
}

/// The relation between a piece of text and what `style` can return for it.
pub open spec fn by_call<F: Fn(&str) -> String>(style: F) -> spec_fn(Seq<char>, Seq<char>) -> bool {
    |piece: Seq<char>, styled: Seq<char>| styled_by(style, piece, styled)
}

/// The relation between a piece of text and its two forms in style `paint`.
pub open spec fn by_paint(paint: Paint) -> spec_fn(Seq<char>, Seq<char>) -> bool {
    |piece: Seq<char>, styled: Seq<char>| paints(paint, piece, styled)
}

/// A marking stays one under any relation that allows at least the same forms.
pub proof fn lemma_marks_weaken(
    text: Seq<char>,
    section: Section,
    strong: spec_fn(Seq<char>, Seq<char>) -> bool,
    weak: spec_fn(Seq<char>, Seq<char>) -> bool,
    out: Seq<char>,
)
    requires
        marks(text, section, strong, out),
        forall|piece: Seq<char>, styled: Seq<char>| #[trigger]
            strong(piece, styled) ==> weak(piece, styled),
    ensures
        marks(text, section, weak, out),
{
    let styled = choose|styled: Seq<Seq<char>>| #[trigger]
        is_marking(lines_of(text), section, strong, styled, out);
    assert(is_marking(lines_of(text), section, weak, styled, out));
}

/// A marking changes nothing outside the span: its text is made of as many
/// lines as the source; a line outside the span's range of lines is the source
/// line; and a line inside it starts with what stands before the covered
/// characters and ends with what stands after them.
pub proof fn lemma_marks_outside(
    text: Seq<char>,
    section: Section,
    rel: spec_fn(Seq<char>, Seq<char>) -> bool,
    out: Seq<char>,
)
    requires
        marks(text, section, rel, out),
    ensures
        exists|marked: Seq<Seq<char>>|
            {
                let lines = lines_of(text);
                &&& marked.len() == lines.len()
                &&& out == #[trigger] join_lines(marked)
                &&& forall|i: int|
                    0 <= i < lines.len() && !section.touches(i) ==> #[trigger] marked[i]
                        == lines[i]
                &&& forall|i: int|
                    0 <= i < lines.len() && section.touches(i) ==> lines[i].take(
                        mark_from(section, i, lines[i].len() as int),
                    ).is_prefix_of(#[trigger] marked[i]) && lines[i].skip(
                        mark_to(section, i, lines[i].len() as int),
                    ).is_suffix_of(marked[i])
            },
{
    let lines = lines_of(text);
    let styled = choose|styled: Seq<Seq<char>>| #[trigger]
        is_marking(lines, section, rel, styled, out);
    let marked = Seq::new(lines.len(), |i: int| marked_line(lines[i], i, section, styled[i]));
    assert forall|i: int| 0 <= i < lines.len() && section.touches(i) implies lines[i].take(
        mark_from(section, i, lines[i].len() as int),
    ).is_prefix_of(#[trigger] marked[i]) && lines[i].skip(
        mark_to(section, i, lines[i].len() as int),
    ).is_suffix_of(marked[i]) by {
        let before = lines[i].take(mark_from(section, i, lines[i].len() as int));
        let after = lines[i].skip(mark_to(section, i, lines[i].len() as int));
        assert(marked[i] == before + styled[i] + after);
        assert(marked[i].subrange(0, before.len() as int) =~= before);
        assert(marked[i].subrange(marked[i].len() - after.len(), marked[i].len() as int)
            =~= after);
    }
    assert(out == join_lines(marked));
}

/// Applies `style` to the characters of `input` that lie inside `section` and
/// leaves all others as they are.
///
/// On the span's first line the styled characters start at the start column,
/// on its last line they stop before the end column, and the lines between are
/// styled whole. `style` is called once for every line in the span's range of
/// lines, also where it covers no character of the line. The lines are joined
/// again by single line feeds.
pub fn thing<F: Fn(&str) -> String>(input: &str, section: &Section, style: F) -> (out: String)
    requires
        forall|piece: &str|
            is_covered_piece(input@, *section, piece@) ==> call_requires(style, (piece,)),
    ensures
        marks(input@, *section, by_call(style), out@),
{
    let chars = chars_of(input);
    let lines = split_lines(&chars);
    let mut out = String::new();
    let ghost rel = by_call(style);
    let ghost mut styled: Seq<Seq<char>> = Seq::empty();
    let ghost mut done: Seq<Seq<char>> = Seq::empty();
    let mut i: usize = 0;
    while i < lines.len()
        invariant
            i <= lines.len(),
            views(lines@) == lines_of(input@),
            forall|piece: &str|
                is_covered_piece(input@, *section, piece@) ==> call_requires(style, (piece,)),
            rel == by_call(style),
            styled.len() == i,
            done.len() == i,
            forall|j: int|
                0 <= j < i && section.touches(j) ==> rel(
                    covered(lines[j]@, j, *section),
                    #[trigger] styled[j],
                ),
            forall|j: int|
                0 <= j < i ==> #[trigger] done[j] == marked_line(
                    lines[j]@,
                    j,
                    *section,
                    styled[j],
                ),
            out@ == if 0 < i < lines.len() {
                join_lines(done) + seq!['\n']
            } else {
                join_lines(done)
            },
        decreases lines.len() - i,
    {
        let line = &lines[i];
        let len = line.len();
        let ghost before = out@;
        if i < section.start_line || i > section.end_line {
            push_chars(&mut out, line, 0, len);
            proof {
                styled = styled.push(Seq::empty());
                assert(line@.subrange(0, len as int) =~= line@);
            }
        } else {
            let start_col = if i == section.start_line {
                section.start_col
            } else {
                0
            };
            let end_col = if i == section.end_line {
                section.end_col
            } else {
                len
            };
            let from = if start_col <= len {
                start_col
            } else {
                len
            };
            let to = if end_col <= len {
                end_col
            } else {
                len
            };
            let to = if from <= to {
                to
            } else {
                from
            };
            push_chars(&mut out, line, 0, from);
            let piece = string_of(line, from, to);
            let piece = piece.as_str();
            proof {
                assert(piece@ == covered(lines_of(input@)[i as int], i as int, *section));
            }
            let painted = style(piece);
            out.append(painted.as_str());
            push_chars(&mut out, line, to, len);
            proof {
                assert(call_ensures(style, (piece,), painted));
                assert(styled_by(style, piece@, painted@));
                styled = styled.push(painted@);
                assert(line@.subrange(0, from as int) =~= line@.take(from as int));
                assert(line@.subrange(to as int, len as int) =~= line@.skip(to as int));
            }
        }
        proof {
            let new_line = marked_line(line@, i as int, *section, styled[i as int]);
            assert(out@ =~= before + new_line);
            lemma_join_push(done, new_line);
            done = done.push(new_line);
        }
        if i + 1 < lines.len() {
            out.push('\n');
        }
        i += 1;
    }
    proof {
        let all = views(lines@);
        assert(done =~= Seq::new(
            all.len(),
            |j: int| marked_line(all[j], j, *section, styled[j]),
        ));
        assert(is_marking(all, *section, rel, styled, out@));
    }
    out
}

/// Marks the characters of `input` inside `section` in bold and in `color`.
pub fn highlight(input: &str, section: &Section, color: Color) -> (out: String)
    ensures
        marks(input@, *section, by_paint(Paint::BoldTint(color)), out@),
{
    let style = |piece: &str| -> (styled: String)
        ensures
            paints(Paint::BoldTint(color), piece@, styled@),
        { paint(piece, Paint::BoldTint(color)) };
    let ghost called = by_call(style);
    let out = thing(input, section, style);
    proof {
        lemma_marks_weaken(input@, *section, called, by_paint(Paint::BoldTint(color)), out@);
    }
    out
}

/// Marks the characters of `input` inside `section` in bold.
pub fn bold_highlight(input: &str, section: &Section) -> (out: String)
    ensures
        marks(input@, *section, by_paint(Paint::Bold), out@),
{
    let style = |piece: &str| -> (styled: String)
        ensures
            paints(Paint::Bold, piece@, styled@),
        { paint(piece, Paint::Bold) };
    let ghost called = by_call(style);
    let out = thing(input, section, style);
    proof {
        lemma_marks_weaken(input@, *section, called, by_paint(Paint::Bold), out@);
    }
    out
}

/// True if `idx` lies between the bounds of `range`, both included.
///
/// The bounds are what `start` and `end` give for the range. For a range that
/// has not been iterated to exhaustion these are its lower and upper bound;
/// for an exhausted one the standard library leaves them open.
pub fn range_contains(range: &RangeInclusive<usize>, idx: usize) -> (b: bool)
    ensures
        !range@.exhausted ==> b == (range@.start <= idx <= range@.end),
        exists|lower: &usize, upper: &usize|
            #![trigger call_ensures(RangeInclusive::<usize>::start, (range,), lower), call_ensures(RangeInclusive::<usize>::end, (range,), upper)]
            call_ensures(RangeInclusive::<usize>::start, (range,), lower) && call_ensures(
                RangeInclusive::<usize>::end,
                (range,),
                upper,
            ) && b == (*lower <= idx && idx <= *upper),
{
    let lower = range.start();
    let upper = range.end();
    *lower <= idx && *upper >= idx
}

/// True for the characters that Unicode classes as white space.
pub open spec fn is_whitespace(c: char) -> bool {
    ||| c == ' '
    ||| ('\u{9}' <= c && c <= '\u{d}')
    ||| c == '\u{85}'
    ||| c == '\u{a0}'
    ||| c == '\u{1680}'
    ||| ('\u{2000}' <= c && c <= '\u{200a}')
    ||| c == '\u{2028}'
    ||| c == '\u{2029}'
    ||| c == '\u{202f}'
    ||| c == '\u{205f}'
    ||| c == '\u{3000}'
}

/// True if the line is empty or holds white space only.
pub open spec fn is_blank(line: Seq<char>) -> bool {
    forall|i: int| 0 <= i < line.len() ==> is_whitespace(#[trigger] line[i])
}

/// The number of spaces and tabs that the line starts with.
pub open spec fn indent(line: Seq<char>) -> nat
    decreases line.len(),
{
    if line.len() > 0 && (line[0] == ' ' || line[0] == '\t') {
        1 + indent(line.skip(1))
    } else {
        0
    }
}

/// The least indent among the lines that are not blank; `None` if all are.
pub open spec fn least_indent(lines: Seq<Seq<char>>) -> Option<nat>
    decreases lines.len(),
{
    if lines.len() == 0 {
        None
    } else {
        let line = lines.last();
        match least_indent(lines.drop_last()) {
            _ if is_blank(line) => least_indent(lines.drop_last()),
            Some(least) if least <= indent(line) => Some(least),
            _ => Some(indent(line)),
        }
    }
}

/// The indent that all lines with text share: the least among them, and 0
/// where no line has text.
pub open spec fn common_indent(lines: Seq<Seq<char>>) -> nat {
    match least_indent(lines) {
        Some(least) => least,
        None => 0,
    }
}

/// The lines without their common indent. A blank line becomes empty.
pub open spec fn dedented(lines: Seq<Seq<char>>) -> Seq<Seq<char>> {
    Seq::new(
        lines.len(),
        |i: int|
            if is_blank(lines[i]) {
                Seq::empty()
            } else {
                lines[i].skip(common_indent(lines) as int)
            },
    )
}

/// The text without the indent that its lines share.
pub open spec fn dedent(text: Seq<char>) -> Seq<char> {
    join_lines(dedented(lines_of(text)))
}

/// True if `c` is white space.
fn whitespace(c: char) -> (b: bool)
    ensures
        b == is_whitespace(c),
{
    c == ' ' || ('\u{9}' <= c && c <= '\u{d}') || c == '\u{85}' || c == '\u{a0}' || c
        == '\u{1680}' || ('\u{2000}' <= c && c <= '\u{200a}') || c == '\u{2028}' || c
        == '\u{2029}' || c == '\u{202f}' || c == '\u{205f}' || c == '\u{3000}'
}

/// True if the line is empty or holds white space only.
fn blank(line: &Vec<char>) -> (b: bool)
    ensures
        b == is_blank(line@),
{
    let mut i: usize = 0;
    while i < line.len()
        invariant
            i <= line.len(),
            forall|j: int| 0 <= j < i ==> is_whitespace(#[trigger] line@[j]),
        decreases line.len() - i,
    {
        if !whitespace(line[i]) {
            return false;
        }
        i += 1;
    }
    true
}

/// The number of spaces and tabs that the line starts with.
fn indent_of(line: &Vec<char>) -> (n: usize)
    ensures
        n == indent(line@),
        n <= line.len(),
{
    let mut i: usize = 0;
    proof {
        assert(line@.skip(0) =~= line@);
    }
    while i < line.len() && (line[i] == ' ' || line[i] == '\t')
        invariant
            i <= line.len(),
            indent(line@) == i + indent(line@.skip(i as int)),
        decreases line.len() - i,
    {
        proof {
            assert(line@.skip(i as int).skip(1) =~= line@.skip(i as int + 1));
        }
        i += 1;
    }
    i
}

/// Removes from every line of `input` the indent that all its lines share.
///
/// The indent of a line is the run of spaces and tabs that it starts with; the
/// shared indent is the least one among the lines that are not blank. Blank
/// lines do not count towards it and come out empty. The lines are joined
/// again by single line feeds.
pub fn remove_excess_tabs(input: &str) -> (out: String)
    ensures
        out@ == dedent(input@),
{
    let chars = chars_of(input);
    let lines = split_lines(&chars);
    let mut least: Option<usize> = None;
    let mut i: usize = 0;
    while i < lines.len()
        invariant
            i <= lines.len(),
            match least_indent(views(lines@).take(i as int)) {
                Some(n) => least == Some(n as usize) && n <= usize::MAX,
                None => least is None,
            },
        decreases lines.len() - i,
    {
        proof {
            let upto = views(lines@).take(i as int + 1);
            assert(upto.drop_last() =~= views(lines@).take(i as int));
            assert(upto.last() == lines[i as int]@);
        }
        if !blank(&lines[i]) {
            let n = indent_of(&lines[i]);
            least = match least {
                Some(m) if m <= n => Some(m),
                _ => Some(n),
            };
        }
        i += 1;
    }
    proof {
        assert(views(lines@).take(lines.len() as int) =~= views(lines@));
    }
    let shared = match least {
        Some(n) => n,
        None => 0,
    };
    let ghost done = dedented(views(lines@));
    let mut out = String::new();
    let mut i: usize = 0;
    while i < lines.len()
        invariant
            i <= lines.len(),
            shared == common_indent(views(lines@)),
            done == dedented(views(lines@)),
            out@ == if 0 < i < lines.len() {
                join_lines(done.take(i as int)) + seq!['\n']
            } else {
                join_lines(done.take(i as int))
            },
        decreases lines.len() - i,
    {
        let line = &lines[i];
        let ghost before = out@;
        if !blank(line) {
            proof {
                lemma_least_indent_bounds(views(lines@), i as int);
                lemma_indent_bounds(line@);
            }
            push_chars(&mut out, line, shared, line.len());
            proof {
                assert(line@.subrange(shared as int, line.len() as int) =~= line@.skip(
                    shared as int,
                ));
            }
        }
        proof {
            assert(out@ =~= before + done[i as int]);
            lemma_join_push(done.take(i as int), done[i as int]);
            assert(done.take(i as int).push(done[i as int]) =~= done.take(i as int + 1));
        }
        if i + 1 < lines.len() {
            out.push('\n');
        }
        i += 1;
    }
    proof {
        assert(done.take(lines.len() as int) =~= done);
    }
    out
}

/// A line's indent is no longer than the line, and is made of spaces and tabs.
pub proof fn lemma_indent_bounds(line: Seq<char>)
    ensures
        indent(line) <= line.len(),
        forall|j: int| 0 <= j < indent(line) ==> line[j] == ' ' || line[j] == '\t',
        indent(line) < line.len() ==> line[indent(line) as int] != ' ' && line[indent(
            line,
        ) as int] != '\t',
    decreases line.len(),
{
    if line.len() > 0 && (line[0] == ' ' || line[0] == '\t') {
        let rest = line.skip(1);
        lemma_indent_bounds(rest);
        assert forall|j: int| 0 <= j < indent(line) implies line[j] == ' ' || line[j] == '\t' by {
            if j > 0 {
                assert(line[j] == rest[j - 1]);
            }
        }
        if indent(line) < line.len() {
            assert(line[indent(line) as int] == rest[indent(rest) as int]);
        }
    }
}

/// The least indent is a lower bound of the indents of the lines with text.
pub proof fn lemma_least_indent_bounds(lines: Seq<Seq<char>>, i: int)
    requires
        0 <= i < lines.len(),
        !is_blank(lines[i]),
    ensures
        least_indent(lines) is Some,
        common_indent(lines) <= indent(lines[i]),
    decreases lines.len(),
{
    if i < lines.len() - 1 {
        lemma_least_indent_bounds(lines.drop_last(), i);
    }
}


/// Some line with text has exactly the least indent.
pub proof fn lemma_least_indent_attained(lines: Seq<Seq<char>>) -> (i: int)
    requires
        least_indent(lines) is Some,
    ensures
        0 <= i < lines.len(),
        !is_blank(lines[i]),
        indent(lines[i]) == common_indent(lines),
    decreases lines.len(),
{
    let rest = lines.drop_last();
    let line = lines.last();
    if is_blank(line) {
        lemma_least_indent_attained(rest)
    } else {
        match least_indent(rest) {
            Some(least) if least <= indent(line) => lemma_least_indent_attained(rest),
            _ => lines.len() - 1,
        }
    }
}

/// Where every line is blank there is no least indent.
pub proof fn lemma_least_indent_none(lines: Seq<Seq<char>>)
    requires
        forall|i: int| 0 <= i < lines.len() ==> is_blank(#[trigger] lines[i]),
    ensures
        least_indent(lines) is None,
    decreases lines.len(),
{
    if lines.len() > 0 {
        lemma_least_indent_none(lines.drop_last());
    }
}

/// Cutting off a part of the indent shortens the indent by as much.
pub proof fn lemma_indent_skip(line: Seq<char>, n: int)
    requires
        0 <= n <= indent(line),
    ensures
        indent(line.skip(n)) == indent(line) - n,
    decreases n,
{
    lemma_indent_bounds(line);
    if n > 0 {
        lemma_indent_skip(line.skip(1), n - 1);
        assert(line.skip(1).skip(n - 1) =~= line.skip(n));
    } else {
        assert(line.skip(0) =~= line);
    }
}

/// A line with text keeps its text when a part of its indent is cut off.
pub proof fn lemma_text_survives(line: Seq<char>, n: int)
    requires
        0 <= n <= indent(line),
        !is_blank(line),
    ensures
        !is_blank(line.skip(n)),
        line.skip(n).len() > 0,
        line.skip(n).last() == line.last(),
{
    lemma_indent_bounds(line);
    let p = choose|p: int| 0 <= p < line.len() && !is_whitespace(#[trigger] line[p]);
    assert(p >= indent(line)) by {
        if p < indent(line) {
            assert(line[p] == ' ' || line[p] == '\t');
        }
    }
    assert(line.skip(n)[p - n] == line[p]);
}

/// What dedenting does to each line: it keeps their number, empties the blank
/// ones, and cuts the common indent off the others, which is no more than
/// their own.
pub proof fn lemma_dedented_lines(lines: Seq<Seq<char>>)
    ensures
        dedented(lines).len() == lines.len(),
        forall|i: int|
            0 <= i < lines.len() && is_blank(lines[i]) ==> #[trigger] dedented(lines)[i]
                == Seq::<char>::empty(),
        forall|i: int|
            0 <= i < lines.len() && !is_blank(lines[i]) ==> #[trigger] dedented(lines)[i]
                == lines[i].skip(common_indent(lines) as int),
        forall|i: int|
            0 <= i < lines.len() && !is_blank(lines[i]) ==> indent(#[trigger] dedented(lines)[i])
                == indent(lines[i]) - common_indent(lines),
{
    assert forall|i: int| 0 <= i < lines.len() && !is_blank(lines[i]) implies indent(
        #[trigger] dedented(lines)[i],
    ) == indent(lines[i]) - common_indent(lines) by {
        lemma_least_indent_bounds(lines, i);
        lemma_indent_skip(lines[i], common_indent(lines) as int);
    }
}

/// Dedented lines have no indent in common, so dedenting them again changes
/// nothing.
pub proof fn lemma_dedented_twice(lines: Seq<Seq<char>>)
    ensures
        dedented(dedented(lines)) == dedented(lines),
{
    let once = dedented(lines);
    lemma_dedented_lines(lines);
    assert forall|i: int| 0 <= i < lines.len() implies is_blank(#[trigger] once[i]) == is_blank(
        lines[i],
    ) by {
        if !is_blank(lines[i]) {
            lemma_least_indent_bounds(lines, i);
            lemma_text_survives(lines[i], common_indent(lines) as int);
        }
    }
    if least_indent(lines) is Some {
        let j = lemma_least_indent_attained(lines);
        assert(!is_blank(once[j]));
        lemma_least_indent_bounds(once, j);
        assert(common_indent(once) == 0);
    } else {
        assert forall|i: int| 0 <= i < once.len() implies is_blank(#[trigger] once[i]) by {
            if !is_blank(lines[i]) {
                lemma_least_indent_bounds(lines, i);
            }
        }
        lemma_least_indent_none(once);
    }
    assert forall|i: int| 0 <= i < once.len() implies dedented(once)[i] == once[i] by {
        if !is_blank(once[i]) {
            assert(once[i].skip(0) =~= once[i]);
        }
    }
    assert(dedented(once) =~= once);
}

/// The lines of a text that was joined from lines: each line but the last
/// loses a trailing carriage return, and an empty last line is not a line.
pub open spec fn rejoined(lines: Seq<Seq<char>>) -> Seq<Seq<char>> {
    if lines.len() == 0 {
        lines
    } else {
        let front = Seq::new((lines.len() - 1) as nat, |i: int| chomp(lines[i]));
        if lines.last().len() == 0 {
            front
        } else {
            front.push(lines.last())
        }
    }
}

/// Splitting a text that was joined from lines gives the lines back, but for
/// trailing carriage returns and an empty last line.
pub proof fn lemma_lines_of_join(lines: Seq<Seq<char>>)
    requires
        forall|i: int| 0 <= i < lines.len() ==> single_line(#[trigger] lines[i]),
    ensures
        lines_of(join_lines(lines)) == rejoined(lines),
    decreases lines.len(),
{
    let text = join_lines(lines);
    if lines.len() == 0 {
        assert(lines_of(text) =~= rejoined(lines));
    } else if lines.len() == 1 {
        let first = lines[0];
        assert(single_line(first));
        if first.len() > 0 {
            lemma_first_newline(first, first.len() as int);
        }
        assert(lines_of(text) =~= rejoined(lines));
    } else {
        let first = lines[0];
        assert(single_line(first));
        let rest = lines.skip(1);
        let k = first.len() as int;
        assert(text == first + seq!['\n'] + join_lines(rest));
        assert forall|j: int| 0 <= j < k implies text[j] != '\n' by {
            assert(text[j] == first[j]);
        }
        lemma_first_newline(text, k);
        assert(text.take(k) =~= first);
        assert(text.skip(k + 1) =~= join_lines(rest));
        assert forall|i: int| 0 <= i < rest.len() implies single_line(#[trigger] rest[i]) by {
            assert(rest[i] == lines[i + 1]);
        }
        lemma_lines_of_join(rest);
        assert(rest.last() == lines.last());
        assert(seq![chomp(first)] + rejoined(rest) =~= rejoined(lines));
    }
}

/// True if `shown` is `line`, the line with index `i`, with the characters that
/// `section` covers in one of their forms in style `paint`; a line outside the
/// span's range of lines is shown as it is.
pub open spec fn is_painted_line(
    line: Seq<char>,
    i: int,
    section: Section,
    paint: Paint,
    shown: Seq<char>,
) -> bool {
    if section.touches(i) {
        exists|styled: Seq<char>| #[trigger]
            paints(paint, covered(line, i, section), styled) && shown == marked_line(
                line,
                i,
                section,
                styled,
            )
    } else {
        shown == line
    }
}

/// True if `shown` are the lines `lines`, each with the span marked in `paint`.
pub open spec fn are_painted_lines(
    lines: Seq<Seq<char>>,
    section: Section,
    paint: Paint,
    shown: Seq<Seq<char>>,
) -> bool {
    &&& shown.len() == lines.len()
    &&& forall|i: int|
        0 <= i < lines.len() ==> is_painted_line(lines[i], i, section, paint, #[trigger] shown[i])
}

/// The lines of a text marked in a style are the lines of the source, each
/// with the span marked: marking neither adds nor removes a line feed. Only
/// what splitting always does shows: a carriage return that ends a line but
/// the last is dropped, and an empty last line is not a line.
pub proof fn lemma_painted_text_lines(
    text: Seq<char>,
    section: Section,
    paint: Paint,
    marked: Seq<char>,
)
    requires
        marks(text, section, by_paint(paint), marked),
    ensures
        exists|shown: Seq<Seq<char>>| #[trigger]
            are_painted_lines(lines_of(text), section, paint, shown) && marked == join_lines(
                shown,
            ) && lines_of(marked) == rejoined(shown),
{
    let lines = lines_of(text);
    let styled = choose|styled: Seq<Seq<char>>| #[trigger]
        is_marking(lines, section, by_paint(paint), styled, marked);
    let shown = Seq::new(lines.len(), |i: int| marked_line(lines[i], i, section, styled[i]));
    lemma_lines_are_single(text);
    assert forall|i: int| 0 <= i < lines.len() implies is_painted_line(
        lines[i],
        i,
        section,
        paint,
        #[trigger] shown[i],
    ) && single_line(shown[i]) by {
        let line = lines[i];
        assert(single_line(line));
        if section.touches(i) {
            let piece = covered(line, i, section);
            let from = mark_from(section, i, line.len() as int);
            let to = mark_to(section, i, line.len() as int);
            assert(by_paint(paint)(piece, styled[i]));
            assert(paints(paint, piece, styled[i]));
            assert forall|j: int| 0 <= j < piece.len() implies piece[j] != '\n' by {
                assert(piece[j] == line[from + j]);
            }
            lemma_painted_is_single(paint, piece, styled[i]);
            let before = line.take(from);
            let after = line.skip(to);
            assert(shown[i] == before + styled[i] + after);
            assert forall|j: int| 0 <= j < shown[i].len() implies shown[i][j] != '\n' by {
                if j < before.len() {
                    assert(shown[i][j] == line[j]);
                } else if j < before.len() + styled[i].len() {
                    assert(shown[i][j] == styled[i][j - before.len()]);
                } else {
                    assert(shown[i][j] == line[to + (j - before.len() - styled[i].len())]);
                }
            }
        }
    }
    lemma_lines_of_join(shown);
    assert(are_painted_lines(lines, section, paint, shown));
}

/// True if dedenting the text once more changes nothing: the text has at most
/// one line, or its last line has text and none of the lines before it that
/// have text ends in a carriage return.
pub open spec fn dedent_settles(text: Seq<char>) -> bool {
    let lines = lines_of(text);
    lines.len() <= 1 || (!is_blank(lines.last()) && forall|i: int|
        0 <= i < lines.len() - 1 && !is_blank(#[trigger] lines[i]) ==> lines[i].last() != '\r')
}

/// The dedented lines of a text hold no line feed.
proof fn lemma_dedented_are_single(text: Seq<char>)
    ensures
        forall|i: int|
            0 <= i < dedented(lines_of(text)).len() ==> single_line(
                #[trigger] dedented(lines_of(text))[i],
            ),
{
    let lines = lines_of(text);
    lemma_lines_are_single(text);
    assert forall|i: int| 0 <= i < dedented(lines).len() implies single_line(
        #[trigger] dedented(lines)[i],
    ) by {
        assert(single_line(lines[i]));
        if !is_blank(lines[i]) {
            lemma_least_indent_bounds(lines, i);
            lemma_indent_bounds(lines[i]);
            let cut = common_indent(lines) as int;
            assert forall|j: int| 0 <= j < lines[i].skip(cut).len() implies lines[i].skip(cut)[j]
                != '\n' by {
                assert(lines[i].skip(cut)[j] == lines[i][j + cut]);
            }
        }
    }
}

/// Dedenting a dedented text changes nothing, for every text on which
/// `dedent_settles` holds.
///
/// On the other texts it does change something: a blank last line comes out
/// empty, so that the dedented text ends in a line feed that the next pass
/// takes for the end of the line before; and a carriage return that ends a
/// line comes to stand before a line feed, where the next pass drops it.
pub proof fn lemma_dedent_idempotent(text: Seq<char>)
    requires
        dedent_settles(text),
    ensures
        dedent(dedent(text)) == dedent(text),
{
    let lines = lines_of(text);
    let once = dedented(lines);
    lemma_dedented_lines(lines);
    lemma_dedented_twice(lines);
    if lines.len() == 0 {
        assert(join_lines(once) =~= Seq::<char>::empty());
        assert(dedented(Seq::<Seq<char>>::empty()) =~= Seq::<Seq<char>>::empty());
    } else if lines.len() == 1 && is_blank(lines[0]) {
        assert(join_lines(once) =~= Seq::<char>::empty());
        assert(dedented(Seq::<Seq<char>>::empty()) =~= Seq::<Seq<char>>::empty());
    } else {
        lemma_dedented_are_single(text);
        lemma_lines_of_join(once);
        let last = lines.len() - 1;
        lemma_least_indent_bounds(lines, last);
        lemma_text_survives(lines[last], common_indent(lines) as int);
        assert forall|i: int| 0 <= i < last implies chomp(once[i]) == once[i] by {
            if !is_blank(lines[i]) {
                lemma_least_indent_bounds(lines, i);
                lemma_text_survives(lines[i], common_indent(lines) as int);
            }
        }
        assert(rejoined(once) =~= once);
    }
}

/// Dedenting keeps the number of lines of a text, for every text that is
/// empty or whose last line has text. (A blank last line comes out empty, and
/// an empty last line is not a line.)
pub proof fn lemma_dedent_keeps_line_count(text: Seq<char>)
    requires
        lines_of(text).len() == 0 || !is_blank(lines_of(text).last()),
    ensures
        lines_of(dedent(text)).len() == lines_of(text).len(),
{
    let lines = lines_of(text);
    let once = dedented(lines);
    lemma_dedented_lines(lines);
    if lines.len() == 0 {
        assert(join_lines(once) =~= Seq::<char>::empty());
    } else {
        lemma_dedented_are_single(text);
        lemma_lines_of_join(once);
        let last = lines.len() - 1;
        lemma_least_indent_bounds(lines, last);
        lemma_text_survives(lines[last], common_indent(lines) as int);
    }
}

} // verus!
