//! The blocks that a rendered entry is made of, and how each is laid out.
//!
//! Every styled piece of a block has two possible forms (see [`paints`]), so a
//! block is described by a predicate on its text rather than by a function.

use crate::level::LogLevel;
use crate::location::Section;
use crate::paint::{
    coded, has_reset, is_named, lemma_painted_is_single, lemma_resumed_after, lemma_resumed_at_reset, lemma_resumed_plain, paint,
    paints, reset_code, resumed, start_code, Color, Paint,
};
use crate::text::{
    chomp, decimal, fuse, join_lines, lemma_decimal_is_digits, lemma_fuse_append, lemma_fuse_empty,
    lines_of, push_chars, single_line, spaces, string_of,
};
use crate::utils::{
    are_painted_lines, by_paint, is_painted_line, lemma_painted_text_lines, marks, rejoined,
};
use vstd::prelude::*;
use vstd::string::StringExecFns;

verus! {

/// The style of the gutter: line numbers, bars and the arrow.
pub open spec fn gutter_paint() -> Paint {
    Paint::BoldTint(Color::Blue)
}

/// The style that marks the span in a snippet: bold alone for the levels that
/// only inform, bold in the level's colour for the others.
pub open spec fn snippet_paint(level: LogLevel) -> Paint {
    if level.is_informational() {
        Paint::Bold
    } else {
        Paint::BoldTint(level.hue())
    }
}

/// The gutter's bar.
pub open spec fn bar_text() -> Seq<char> {
    seq!['|']
}

/// The arrow that points at the place.
pub open spec fn arrow_text() -> Seq<char> {
    seq!['-', '-', '>']
}

/// The word that introduces a hint.
pub open spec fn help_text() -> Seq<char> {
    seq!['h', 'e', 'l', 'p', ':']
}

/// The second segment of the header, before it is styled: a colon, a space
/// and the message.
pub open spec fn headline(message: Seq<char>) -> Seq<char> {
    seq![':', ' '] + message
}

/// The label before it is set in bold, where there is a tag: the name as it
/// came out in the level's colour, then the tag in square brackets.
pub open spec fn tagged(name: Seq<char>, tag: Seq<char>) -> Seq<char> {
    name + seq!['['] + tag + seq![']']
}

/// The first segment of the header. Without a tag it is the level's name in
/// bold and in the level's colour. With a tag it is the name in the level's
/// colour, then the tag in square brackets, the whole in bold.
pub open spec fn is_label(level: LogLevel, tag: Seq<char>, out: Seq<char>) -> bool {
    if tag.len() == 0 {
        paints(Paint::BoldTint(level.hue()), level.name(), out)
    } else {
        exists|name: Seq<char>| #[trigger]
            paints(Paint::Tint(level.hue()), level.name(), name) && paints(
                Paint::Bold,
                tagged(name, tag),
                out,
            )
    }
}

/// The header: the label, then a colon, a space and the message in bold, then
/// a line feed.
pub open spec fn is_header(level: LogLevel, message: Seq<char>, tag: Seq<char>, out: Seq<char>) -> bool {
    exists|label: Seq<char>, text: Seq<char>|
        #![trigger is_label(level, tag, label), paints(Paint::Bold, headline(message), text)]
        is_label(level, tag, label) && paints(Paint::Bold, headline(message), text) && out
            == label + text + seq!['\n']
}

/// The line that names the place: the indent, an arrow in the gutter's style,
/// a space and the place.
pub open spec fn is_location_line(indent: Seq<char>, place: Seq<char>, out: Seq<char>) -> bool {
    exists|arrow: Seq<char>| #[trigger]
        paints(gutter_paint(), arrow_text(), arrow) && out == indent + arrow + seq![' ']
            + place + seq!['\n']
}

/// A line that holds nothing but the gutter's bar after the padding.
pub open spec fn is_bar_line(padding: Seq<char>, out: Seq<char>) -> bool {
    exists|bar: Seq<char>| #[trigger]
        paints(gutter_paint(), bar_text(), bar) && out == padding + bar + seq!['\n']
}

/// The line that gives the hint: the padding, the bar, `help:` in bold and the
/// hint, with single spaces between them.
pub open spec fn is_hint_line(padding: Seq<char>, hint: Seq<char>, out: Seq<char>) -> bool {
    exists|bar: Seq<char>, help: Seq<char>|
        #![trigger paints(gutter_paint(), bar_text(), bar), paints(Paint::Bold, help_text(), help)]
        paints(gutter_paint(), bar_text(), bar) && paints(Paint::Bold, help_text(), help) && out == padding + bar + seq![' '] + help + seq![' '] + hint + seq!['\n']
}

/// What stands between a line number of `digits` characters and the bar: the
/// padding without its first `digits` characters, so that the number takes
/// their place; nothing where the number is at least as long as the padding.
pub open spec fn gap(padding: Seq<char>, digits: nat) -> Seq<char> {
    if digits <= padding.len() {
        padding.skip(digits as int)
    } else {
        Seq::empty()
    }
}

/// A row of the panel: the line's number and the bar, both in the gutter's
/// style, with what the number leaves of the padding between them, then a
/// space, the line and a line feed.
pub open spec fn is_row(numeral: Seq<char>, line: Seq<char>, padding: Seq<char>, out: Seq<char>) -> bool {
    exists|number: Seq<char>, bar: Seq<char>|
        #![trigger paints(gutter_paint(), numeral, number), paints(gutter_paint(), bar_text(), bar)]
        paints(gutter_paint(), numeral, number) && paints(gutter_paint(), bar_text(), bar) && out
            == number + gap(padding, numeral.len()) + bar + seq![' '] + line + seq!['\n']
}

/// True if `rows` are the rows of the panel for `lines`: a line that `section`
/// touches gives a row under its one-based number, any other line gives
/// nothing.
pub open spec fn are_rows(
    lines: Seq<Seq<char>>,
    section: Section,
    padding: Seq<char>,
    rows: Seq<Seq<char>>,
) -> bool {
    &&& rows.len() == lines.len()
    &&& forall|i: int|
        0 <= i < lines.len() ==> if section.touches(i) {
            is_row(decimal((i + 1) as nat), lines[i], padding, #[trigger] rows[i])
        } else {
            rows[i] == Seq::<char>::empty()
        }
}

/// The panel for `lines`: one row for each line that `section` touches, none
/// for the others.
pub open spec fn is_panel(lines: Seq<Seq<char>>, section: Section, padding: Seq<char>, out: Seq<char>) -> bool {
    exists|rows: Seq<Seq<char>>| #[trigger]
        are_rows(lines, section, padding, rows) && out == fuse(rows)
}

/// The span that a snippet shows: the location's own, or everything where it
/// has none.
pub open spec fn span_of(section: Option<Section>) -> Section {
    match section {
        Some(section) => section,
        None => Section {
            start_line: 0,
            start_col: 0,
            end_line: usize::MAX,
            end_col: usize::MAX,
        },
    }
}

/// The source panel for `source`: the span is marked in the whole source in
/// the style of the level, and the panel shows the lines of the marked text
/// that the span touches.
pub open spec fn is_source_panel(
    source: Seq<char>,
    section: Option<Section>,
    padding: Seq<char>,
    level: LogLevel,
    out: Seq<char>,
) -> bool {
    exists|marked: Seq<char>| #[trigger]
        marks(source, span_of(section), by_paint(snippet_paint(level)), marked) && is_panel(
            lines_of(marked),
            span_of(section),
            padding,
            out,
        )
}

/// True if `part` stands somewhere in `whole`, its characters side by side.
pub open spec fn occurs_in(part: Seq<char>, whole: Seq<char>) -> bool {
    exists|i: int|
        0 <= i && i + part.len() <= whole.len() && #[trigger] whole.subrange(i, i + part.len())
            == part
}

/// A part occurs in any text built around it.
pub proof fn lemma_occurs_between(before: Seq<char>, part: Seq<char>, after: Seq<char>)
    ensures
        occurs_in(part, before + part + after),
{
    let whole = before + part + after;
    let i = before.len() as int;
    assert(whole.subrange(i, i + part.len()) =~= part);
}

/// What occurs in a part of a text occurs in the text.
pub proof fn lemma_occurs_within(part: Seq<char>, middle: Seq<char>, before: Seq<char>, after: Seq<char>)
    requires
        occurs_in(part, middle),
    ensures
        occurs_in(part, before + middle + after),
{
    let i = choose|i: int|
        0 <= i && i + part.len() <= middle.len() && #[trigger] middle.subrange(i, i + part.len())
            == part;
    let whole = before + middle + after;
    let j = before.len() + i;
    assert(whole.subrange(j, j + part.len()) =~= middle.subrange(i, i + part.len()));
}

/// No level's name holds an escape character.
pub proof fn lemma_name_is_plain(level: LogLevel)
    ensures
        forall|i: int| 0 <= i < level.name().len() ==> level.name()[i] != '\u{1b}',
        !has_reset(level.name()),
{
    reveal_strlit("Trace");
    reveal_strlit("Debug");
    reveal_strlit("Info");
    reveal_strlit("Warning");
    reveal_strlit("Error");
    reveal_strlit("Fatal");
    let name = level.name();
    assert forall|i: int| 0 <= i < name.len() implies name[i] != '\u{1b}' by {}
    if has_reset(name) {
        let i = choose|i: int|
            0 <= i && i + 4 <= name.len() && #[trigger] name.subrange(i, i + 4) == reset_code();
        assert(name.subrange(i, i + 4)[0] == name[i]);
    }
}

/// Square brackets around a text without a reset code give a text without one.
proof fn lemma_bracketed_is_plain(tag: Seq<char>)
    requires
        !has_reset(tag),
    ensures
        !has_reset(seq!['['] + tag + seq![']']),
{
    let text = seq!['['] + tag + seq![']'];
    if has_reset(text) {
        let i = choose|i: int|
            0 <= i && i + 4 <= text.len() && #[trigger] text.subrange(i, i + 4) == reset_code();
        let found = text.subrange(i, i + 4);
        assert(found[0] == text[i] && found[3] == text[i + 3]);
        assert(1 <= i && i + 3 <= tag.len());
        assert(tag.subrange(i - 1, i - 1 + 4) =~= found);
    }
}

/// No reset code starts inside a name that something else follows.
proof fn lemma_no_reset_inside_name(name: Seq<char>, after: Seq<char>)
    requires
        forall|i: int| 0 <= i < name.len() ==> name[i] != '\u{1b}',
    ensures
        forall|i: int|
            0 <= i < name.len() && i + 4 <= (name + after).len() ==> #[trigger] (name
                + after).subrange(i, i + 4) != reset_code(),
{
    assert forall|i: int|
        0 <= i < name.len() && i + 4 <= (name + after).len() implies #[trigger] (name
        + after).subrange(i, i + 4) != reset_code() by {
        assert((name + after).subrange(i, i + 4)[0] == name[i]);
    }
}

/// No reset code starts inside a start code and a name that something else
/// follows.
proof fn lemma_no_reset_inside_lead(paint: Paint, name: Seq<char>, after: Seq<char>)
    requires
        forall|i: int| 0 <= i < name.len() ==> name[i] != '\u{1b}',
        paint matches Paint::Tint(color) && is_named(color),
    ensures
        forall|i: int|
            0 <= i < (start_code(paint) + name).len() && i + 4 <= (start_code(paint) + name
                + after).len() ==> #[trigger] (start_code(paint) + name + after).subrange(i, i + 4)
                != reset_code(),
{
    let open = start_code(paint);
    let whole = open + name + after;
    assert forall|i: int|
        0 <= i < (open + name).len() && i + 4 <= whole.len() implies #[trigger] whole.subrange(
        i,
        i + 4,
    ) != reset_code() by {
        let found = whole.subrange(i, i + 4);
        assert(found[0] == whole[i] && found[2] == whole[i + 2]);
        if i >= open.len() {
            assert(whole[i] == name[i - open.len()]);
        } else if i > 0 {
            assert(whole[i] == open[i]);
        } else {
            assert(whole[2] == open[2]);
        }
    }
}

/// A message without a reset code stands in the second segment of the header
/// as it was given.
pub proof fn lemma_message_shown(message: Seq<char>, text: Seq<char>)
    requires
        paints(Paint::Bold, headline(message), text),
        !has_reset(message),
    ensures
        occurs_in(message, text),
{
    let line = headline(message);
    let bold = start_code(Paint::Bold);
    if has_reset(line) {
        let i = choose|i: int|
            0 <= i && i + 4 <= line.len() && #[trigger] line.subrange(i, i + 4) == reset_code();
        assert(line.subrange(i, i + 4)[0] == line[i]);
        assert(message.subrange(i - 2, i - 2 + 4) =~= line.subrange(i, i + 4));
    }
    lemma_resumed_plain(line, bold);
    if text == line {
        lemma_occurs_between(seq![':', ' '], message, Seq::empty());
        assert(seq![':', ' '] + message + Seq::empty() =~= text);
    } else {
        lemma_occurs_between(bold + seq![':', ' '], message, reset_code());
        assert(bold + seq![':', ' '] + message + reset_code() =~= text);
    }
}

/// The label holds the level's name.
#[verifier::rlimit(40)]
pub proof fn lemma_label_shows_name(level: LogLevel, tag: Seq<char>, label: Seq<char>)
    requires
        is_label(level, tag, label),
    ensures
        occurs_in(level.name(), label),
{
    let name = level.name();
    let bold = start_code(Paint::Bold);
    let none = Seq::<char>::empty();
    lemma_name_is_plain(level);
    if tag.len() == 0 {
        let paint = Paint::BoldTint(level.hue());
        lemma_resumed_plain(name, start_code(paint));
        if label == name {
            lemma_occurs_between(none, name, none);
            assert(none + name + none =~= label);
        } else {
            lemma_occurs_between(start_code(paint), name, reset_code());
        }
    } else {
        let tint = Paint::Tint(level.hue());
        let shown = choose|shown: Seq<char>| #[trigger]
            paints(tint, name, shown) && paints(Paint::Bold, tagged(shown, tag), label);
        let bracketed = seq!['['] + tag + seq![']'];
        let inner = tagged(shown, tag);
        lemma_resumed_plain(name, start_code(tint));
        if shown == name {
            assert(inner =~= name + bracketed);
            lemma_occurs_between(none, name, bracketed);
            assert(none + name + bracketed =~= inner);
            if label != inner {
                lemma_no_reset_inside_name(name, bracketed);
                lemma_resumed_after(name, bracketed, bold);
                lemma_occurs_between(bold, name, resumed(bracketed, bold) + reset_code());
                assert(bold + name + (resumed(bracketed, bold) + reset_code()) =~= label);
            }
        } else {
            let open = start_code(tint);
            let after = reset_code() + bracketed;
            assert(inner =~= open + name + after);
            lemma_occurs_between(open, name, after);
            if label != inner {
                lemma_no_reset_inside_lead(tint, name, after);
                lemma_resumed_after(open + name, after, bold);
                lemma_occurs_between(bold + open, name, resumed(after, bold) + reset_code());
                assert(bold + open + name + (resumed(after, bold) + reset_code()) =~= label);
            }
        }
    }
}

/// Where a tag without a reset code is set, the label holds the level's name
/// followed by the tag in square brackets, with nothing between them but the
/// codes that end the colour and take up the bold again.
#[verifier::rlimit(40)]
pub proof fn lemma_label_shows_tag(level: LogLevel, tag: Seq<char>, label: Seq<char>)
    requires
        is_label(level, tag, label),
        tag.len() > 0,
        !has_reset(tag),
    ensures
        ({
            let bracketed = seq!['['] + tag + seq![']'];
            ||| occurs_in(level.name() + bracketed, label)
            ||| occurs_in(level.name() + reset_code() + bracketed, label)
            ||| occurs_in(level.name() + reset_code() + start_code(Paint::Bold) + bracketed, label)
        }),
{
    let name = level.name();
    let bold = start_code(Paint::Bold);
    let none = Seq::<char>::empty();
    let tint = Paint::Tint(level.hue());
    let shown = choose|shown: Seq<char>| #[trigger]
        paints(tint, name, shown) && paints(Paint::Bold, tagged(shown, tag), label);
    let bracketed = seq!['['] + tag + seq![']'];
    let inner = tagged(shown, tag);
    lemma_name_is_plain(level);
    lemma_bracketed_is_plain(tag);
    lemma_resumed_plain(bracketed, bold);
    lemma_resumed_plain(name, start_code(tint));
    if shown == name {
        assert(inner =~= name + bracketed);
        if label == inner {
            lemma_occurs_between(none, name + bracketed, none);
            assert(none + (name + bracketed) + none =~= label);
        } else {
            lemma_no_reset_inside_name(name, bracketed);
            lemma_resumed_after(name, bracketed, bold);
            lemma_occurs_between(bold, name + bracketed, reset_code());
        }
    } else {
        let open = start_code(tint);
        let after = reset_code() + bracketed;
        assert(inner =~= open + name + after);
        if label == inner {
            lemma_occurs_between(open, name + reset_code() + bracketed, none);
            assert(open + (name + reset_code() + bracketed) + none =~= label);
        } else {
            lemma_no_reset_inside_lead(tint, name, after);
            lemma_resumed_after(open + name, after, bold);
            lemma_resumed_at_reset(bracketed, bold);
            lemma_occurs_between(bold + open, name + reset_code() + bold + bracketed, reset_code());
            assert(bold + open + (name + reset_code() + bold + bracketed) + reset_code()
                =~= label);
        }
    }
}

/// What the header shows, whichever forms its styled pieces took.
///
/// The header holds the level's name. It holds the message as it was given,
/// unless the message itself holds a reset code. Where a tag without a reset
/// code is set, the header holds the name followed by the tag in square
/// brackets, with nothing between them but the codes that end the colour and
/// take up the bold again.
pub proof fn lemma_header_shows(level: LogLevel, message: Seq<char>, tag: Seq<char>, head: Seq<char>)
    requires
        is_header(level, message, tag, head),
    ensures
        occurs_in(level.name(), head),
        !has_reset(message) ==> occurs_in(message, head),
        tag.len() > 0 && !has_reset(tag) ==> {
            let bracketed = seq!['['] + tag + seq![']'];
            ||| occurs_in(level.name() + bracketed, head)
            ||| occurs_in(level.name() + reset_code() + bracketed, head)
            ||| occurs_in(level.name() + reset_code() + start_code(Paint::Bold) + bracketed, head)
        },
{
    let (label, text) = choose|label: Seq<char>, text: Seq<char>|
        #![trigger is_label(level, tag, label), paints(Paint::Bold, headline(message), text)]
        is_label(level, tag, label) && paints(Paint::Bold, headline(message), text) && head
            == label + text + seq!['\n'];
    let name = level.name();
    let none = Seq::<char>::empty();
    let rest = text + seq!['\n'];
    assert(none + label + rest =~= head);
    lemma_label_shows_name(level, tag, label);
    lemma_occurs_within(name, label, none, rest);
    if !has_reset(message) {
        lemma_message_shown(message, text);
        lemma_occurs_within(message, text, label, seq!['\n']);
    }
    if tag.len() > 0 && !has_reset(tag) {
        let bracketed = seq!['['] + tag + seq![']'];
        lemma_label_shows_tag(level, tag, label);
        if occurs_in(name + bracketed, label) {
            lemma_occurs_within(name + bracketed, label, none, rest);
        } else if occurs_in(name + reset_code() + bracketed, label) {
            lemma_occurs_within(name + reset_code() + bracketed, label, none, rest);
        } else {
            lemma_occurs_within(
                name + reset_code() + start_code(Paint::Bold) + bracketed,
                label,
                none,
                rest,
            );
        }
    }
}

/// A row is one line: where neither the padding nor the line holds a line
/// feed, the row of a line under its number ends in a line feed and holds no
/// other.
pub proof fn lemma_row_is_one_line(n: nat, line: Seq<char>, padding: Seq<char>, row: Seq<char>)
    requires
        is_row(decimal(n), line, padding, row),
        single_line(line),
        single_line(padding),
    ensures
        row.len() > 0,
        row.last() == '\n',
        single_line(row.drop_last()),
{
    let numeral = decimal(n);
    let (number, bar) = choose|number: Seq<char>, bar: Seq<char>|
        #![trigger paints(gutter_paint(), numeral, number), paints(gutter_paint(), bar_text(), bar)]
        paints(gutter_paint(), numeral, number) && paints(gutter_paint(), bar_text(), bar) && row
            == number + gap(padding, numeral.len()) + bar + seq![' '] + line + seq!['\n'];
    lemma_decimal_is_digits(n);
    assert(single_line(numeral));
    lemma_painted_is_single(gutter_paint(), numeral, number);
    lemma_painted_is_single(gutter_paint(), bar_text(), bar);
    let between = gap(padding, numeral.len());
    assert forall|j: int| 0 <= j < between.len() implies between[j] != '\n' by {
        assert(between[j] == padding[j + numeral.len()]);
    }
    let body = number + between + bar + seq![' '] + line;
    assert(row =~= body + seq!['\n']);
    assert(row.drop_last() =~= body);
    assert forall|j: int| 0 <= j < body.len() implies body[j] != '\n' by {
        if j < number.len() {
            assert(body[j] == number[j]);
        } else if j < number.len() + between.len() {
            assert(body[j] == between[j - number.len()]);
        } else if j < number.len() + between.len() + bar.len() {
            assert(body[j] == bar[j - number.len() - between.len()]);
        } else if j < number.len() + between.len() + bar.len() + 1 {
            assert(body[j] == ' ');
        } else {
            assert(body[j] == line[j - number.len() - between.len() - bar.len() - 1]);
        }
    }
}

/// The index of the first of `n` lines that `section` touches; `n` where it
/// touches none of them.
pub open spec fn window_start(section: Section, n: nat) -> int {
    if section.start_line <= section.end_line && section.start_line <= n {
        section.start_line as int
    } else {
        n as int
    }
}

/// The index after the last of `n` lines that `section` touches;
/// `window_start` where it touches none of them.
pub open spec fn window_end(section: Section, n: nat) -> int {
    if section.start_line <= section.end_line && section.start_line <= n {
        if section.end_line < n {
            section.end_line + 1
        } else {
            n as int
        }
    } else {
        n as int
    }
}

/// The panel is the window of the lines that the span touches: its text is
/// made of the rows of the lines from `window_start` up to `window_end`, one
/// for each in order, each under the line's one-based number, and of nothing
/// else.
pub proof fn lemma_panel_is_window(
    lines: Seq<Seq<char>>,
    section: Section,
    padding: Seq<char>,
    rows: Seq<Seq<char>>,
)
    requires
        are_rows(lines, section, padding, rows),
    ensures
        0 <= window_start(section, lines.len()) <= window_end(section, lines.len()) <= rows.len(),
        fuse(rows) == fuse(
            rows.subrange(window_start(section, lines.len()), window_end(section, lines.len())),
        ),
        forall|i: int|
            window_start(section, lines.len()) <= i < window_end(section, lines.len()) ==> is_row(
                decimal((i + 1) as nat),
                lines[i],
                padding,
                #[trigger] rows[i],
            ),
{
    let from = window_start(section, lines.len());
    let to = window_end(section, lines.len());
    let before = rows.subrange(0, from);
    let shown = rows.subrange(from, to);
    let after = rows.subrange(to, rows.len() as int);
    assert forall|i: int| 0 <= i < before.len() implies #[trigger] before[i] == Seq::<char>::empty() by {
        assert(before[i] == rows[i]);
        assert(!section.touches(i));
    }
    assert forall|i: int| 0 <= i < after.len() implies #[trigger] after[i] == Seq::<char>::empty() by {
        assert(after[i] == rows[to + i]);
        assert(!section.touches(to + i));
    }
    lemma_fuse_empty(before);
    lemma_fuse_empty(after);
    lemma_fuse_append(before, shown);
    lemma_fuse_append(before + shown, after);
    assert(before + shown + after =~= rows);
    assert(fuse(rows) =~= fuse(shown));
    assert forall|i: int| from <= i < to implies is_row(
        decimal((i + 1) as nat),
        lines[i],
        padding,
        #[trigger] rows[i],
    ) by {
        assert(section.touches(i));
    }
}

/// What a source panel shows of the source: its rows are those of the lines
/// of the source with the span marked in the style of the level, each under
/// the one-based number of the source line. The panel holds one row for each
/// line in the window of the span, in order, and nothing else: no line outside
/// the span's range of lines has a row.
///
/// Only what splitting a text into lines always does comes between the source
/// and the rows: a carriage return that ends a line but the last is dropped,
/// and an empty last line is not a line, so it has no row.
pub proof fn lemma_source_panel_lines(
    source: Seq<char>,
    section: Option<Section>,
    padding: Seq<char>,
    level: LogLevel,
    out: Seq<char>,
)
    requires
        is_source_panel(source, section, padding, level, out),
    ensures
        exists|shown: Seq<Seq<char>>, rows: Seq<Seq<char>>|
            #![trigger are_painted_lines(lines_of(source), span_of(section), snippet_paint(level), shown), are_rows(rejoined(shown), span_of(section), padding, rows)]
            {
                let span = span_of(section);
                let from = window_start(span, rejoined(shown).len());
                let to = window_end(span, rejoined(shown).len());
                &&& are_painted_lines(lines_of(source), span, snippet_paint(level), shown)
                &&& are_rows(rejoined(shown), span, padding, rows)
                &&& 0 <= from <= to <= rows.len()
                &&& out == fuse(rows.subrange(from, to))
            },
{
    let span = span_of(section);
    let paint = snippet_paint(level);
    let marked = choose|marked: Seq<char>| #[trigger]
        marks(source, span, by_paint(paint), marked) && is_panel(
            lines_of(marked),
            span,
            padding,
            out,
        );
    let rows = choose|rows: Seq<Seq<char>>| #[trigger]
        are_rows(lines_of(marked), span, padding, rows) && out == fuse(rows);
    lemma_painted_text_lines(source, span, paint, marked);
    let shown = choose|shown: Seq<Seq<char>>| #[trigger]
        are_painted_lines(lines_of(source), span, paint, shown) && marked == join_lines(shown)
            && lines_of(marked) == rejoined(shown);
    lemma_panel_is_window(rejoined(shown), span, padding, rows);
    assert(are_rows(rejoined(shown), span, padding, rows));
}

/// The panel for a span on one line of the source: the row of that line, with
/// the span marked in the style of the level, under the line's one-based
/// number.
///
/// Where the line is not the last of the source, a carriage return at its end
/// is dropped. Where it is the last and comes out empty, it is no line, and the
/// panel is empty.
pub open spec fn is_one_row_panel(
    source: Seq<char>,
    section: Section,
    padding: Seq<char>,
    level: LogLevel,
    out: Seq<char>,
) -> bool {
    exists|shown: Seq<char>|
        #![trigger is_painted_line(lines_of(source)[section.start_line as int], section.start_line as int, section, snippet_paint(level), shown)]
        {
            let k = section.start_line as int;
            let numeral = decimal((k + 1) as nat);
            &&& is_painted_line(lines_of(source)[k], k, section, snippet_paint(level), shown)
            &&& if k + 1 < lines_of(source).len() {
                is_row(numeral, chomp(shown), padding, out)
            } else if shown.len() > 0 {
                is_row(numeral, shown, padding, out)
            } else {
                out == Seq::<char>::empty()
            }
        }
}

/// A span on one line of the source gives a panel of one row, and of no more.
pub proof fn lemma_one_line_span_gives_one_row(
    source: Seq<char>,
    section: Section,
    padding: Seq<char>,
    level: LogLevel,
    out: Seq<char>,
)
    requires
        is_source_panel(source, Some(section), padding, level, out),
        section.start_line == section.end_line,
        section.start_line < lines_of(source).len(),
    ensures
        is_one_row_panel(source, section, padding, level, out),
{
    let k = section.start_line as int;
    lemma_source_panel_lines(source, Some(section), padding, level, out);
    let (shown, rows) = choose|shown: Seq<Seq<char>>, rows: Seq<Seq<char>>|
        #![trigger are_painted_lines(lines_of(source), span_of(Some(section)), snippet_paint(level), shown), are_rows(rejoined(shown), span_of(Some(section)), padding, rows)]
        {
            let span = span_of(Some(section));
            let from = window_start(span, rejoined(shown).len());
            let to = window_end(span, rejoined(shown).len());
            &&& are_painted_lines(lines_of(source), span, snippet_paint(level), shown)
            &&& are_rows(rejoined(shown), span, padding, rows)
            &&& 0 <= from <= to <= rows.len()
            &&& out == fuse(rows.subrange(from, to))
        };
    let from = window_start(section, rejoined(shown).len());
    let to = window_end(section, rejoined(shown).len());
    let window = rows.subrange(from, to);
    assert(is_painted_line(lines_of(source)[k], k, section, snippet_paint(level), shown[k]));
    if k < rejoined(shown).len() {
        assert(from == k && to == k + 1);
        assert(window.drop_last() =~= Seq::<Seq<char>>::empty());
        assert(fuse(window.drop_last()) =~= Seq::<char>::empty());
        assert(window.last() == rows[k]);
        assert(fuse(window) =~= rows[k]);
        assert(section.touches(k));
        assert(is_row(decimal((k + 1) as nat), rejoined(shown)[k], padding, rows[k]));
    } else {
        assert(window =~= Seq::<Seq<char>>::empty());
        assert(shown[k].len() == 0);
    }
}

/// The row of the panel for `line` under the number `numeral`, before the
/// padding `pad`.
pub fn row(numeral: &Vec<char>, line: &Vec<char>, pad: &Vec<char>) -> (out: String)
    ensures
        is_row(numeral@, line@, pad@, out@),
{
    let shown = string_of(numeral, 0, numeral.len());
    let number = paint(shown.as_str(), Paint::BoldTint(Color::Blue));
    let bar = paint("|", Paint::BoldTint(Color::Blue));
    let mut out = number.clone();
    if numeral.len() <= pad.len() {
        push_chars(&mut out, pad, numeral.len(), pad.len());
        proof {
            assert(pad@.skip(numeral.len() as int) =~= pad@.subrange(
                numeral.len() as int,
                pad.len() as int,
            ));
        }
    }
    proof {
        assert(out@ =~= number@ + gap(pad@, numeral@.len()));
    }
    out.append(bar.as_str());
    out.push(' ');
    push_chars(&mut out, line, 0, line.len());
    out.push('\n');
    proof {
        reveal_strlit("|");
        assert("|"@ =~= bar_text());
        assert(numeral@.subrange(0, numeral.len() as int) =~= numeral@);
        assert(line@.subrange(0, line.len() as int) =~= line@);
        assert(out@ =~= number@ + gap(pad@, numeral@.len()) + bar@ + seq![' '] + line@
            + seq!['\n']);
    }
    out
}

/// A greater number has no shorter numeral.
pub proof fn lemma_decimal_len_monotone(a: nat, b: nat)
    requires
        a <= b,
    ensures
        1 <= decimal(a).len() <= decimal(b).len(),
    decreases b,
{
    if b >= 10 {
        if a >= 10 {
            lemma_decimal_len_monotone(a / 10, b / 10);
        } else {
            lemma_decimal_len_monotone(0, b / 10);
        }
    }
}

/// The gutter is aligned: before a padding one longer than the numeral of the
/// span's last line, every line of the span has its number and what follows it
/// up to the bar as wide as the padding, so that all bars stand in one column,
/// that of the bar lines.
pub proof fn lemma_rows_are_aligned(section: Section, padding: Seq<char>, i: int)
    requires
        section.touches(i),
        0 <= i,
        padding.len() == decimal((section.end_line + 1) as nat).len() + 1,
    ensures
        (decimal((i + 1) as nat) + gap(padding, decimal((i + 1) as nat).len())).len()
            == padding.len(),
        gap(padding, decimal((i + 1) as nat).len()).len() >= 1,
{
    lemma_decimal_len_monotone((i + 1) as nat, (section.end_line + 1) as nat);
}

/// The header of an entry.
pub fn header(level: LogLevel, message: &str, tag: &str) -> (out: String)
    ensures
        is_header(level, message@, tag@, out@),
{
    let name = level.to_string();
    let label = if tag.is_empty() {
        paint(name.as_str(), Paint::BoldTint(level.color()))
    } else {
        let mut label = paint(name.as_str(), Paint::Tint(level.color()));
        let ghost tinted = label@;
        label.append("[");
        label.append(tag);
        label.append("]");
        proof {
            reveal_strlit("[");
            reveal_strlit("]");
            assert(label@ =~= tagged(tinted, tag@));
        }
        paint(label.as_str(), Paint::Bold)
    };
    let mut text = String::from_str(": ");
    text.append(message);
    proof {
        reveal_strlit(": ");
        assert(text@ =~= headline(message@));
    }
    let text = paint(text.as_str(), Paint::Bold);
    let mut out = label;
    out.append(text.as_str());
    out.push('\n');
    proof {
        assert(is_label(level, tag@, label@));
        assert(out@ =~= label@ + text@ + seq!['\n']);
    }
    out
}

/// The line that names the place of an entry.
pub fn location_line(indent: &str, place: &str) -> (out: String)
    ensures
        is_location_line(indent@, place@, out@),
{
    let arrow = paint("-->", Paint::BoldTint(Color::Blue));
    let mut out = String::from_str(indent);
    out.append(arrow.as_str());
    out.push(' ');
    out.append(place);
    out.push('\n');
    proof {
        reveal_strlit("-->");
        assert("-->"@ =~= arrow_text());
        assert(out@ =~= indent@ + arrow@ + seq![' '] + place@ + seq!['\n']);
    }
    out
}

/// A line with the gutter's bar alone.
pub fn bar_line(padding: &str) -> (out: String)
    ensures
        is_bar_line(padding@, out@),
{
    let bar = paint("|", Paint::BoldTint(Color::Blue));
    let mut out = String::from_str(padding);
    out.append(bar.as_str());
    out.push('\n');
    proof {
        reveal_strlit("|");
        assert("|"@ =~= bar_text());
        assert(out@ =~= padding@ + bar@ + seq!['\n']);
    }
    out
}

/// The line that gives the hint of an entry.
pub fn hint_line(padding: &str, hint: &str) -> (out: String)
    ensures
        is_hint_line(padding@, hint@, out@),
{
    let bar = paint("|", Paint::BoldTint(Color::Blue));
    let help = paint("help:", Paint::Bold);
    let mut out = String::from_str(padding);
    out.append(bar.as_str());
    out.push(' ');
    out.append(help.as_str());
    out.push(' ');
    out.append(hint);
    out.push('\n');
    proof {
        reveal_strlit("|");
        reveal_strlit("help:");
        assert("|"@ =~= bar_text());
        assert("help:"@ =~= help_text());
        assert(out@ =~= padding@ + bar@ + seq![' '] + help@ + seq![' '] + hint@ + seq!['\n']);
    }
    out
}

} // verus!
