//! Terminal styling: bold and foreground colours.
//!
//! The escape codes themselves are produced by the `colored` crate. Whether it
//! emits them at all is decided by its process-wide colour switch (the
//! environment, or an explicit override), so every styled text has two possible
//! forms: the text as it is, or the text between a start code and a reset code.
//! A colour given by its red, green and blue parts may besides be replaced by
//! the named colour nearest to it.

use crate::text::{decimal, lemma_decimal_is_digits, single_line};
use colored::Colorize;
use vstd::prelude::*;

verus! {

/// A foreground colour: one of the eight standard colours, one of their
/// bright forms, a colour of the 256-colour palette by its index, or a colour
/// by its red, green and blue parts.
#[derive(Clone, Copy, Debug, PartialEq, Eq, Hash, Structural)]
pub enum Color {
    Black,
    Red,
    Green,
    Yellow,
    Blue,
    Magenta,
    Cyan,
    White,
    BrightBlack,
    BrightRed,
    BrightGreen,
    BrightYellow,
    BrightBlue,
    BrightMagenta,
    BrightCyan,
    BrightWhite,
    AnsiColor(u8),
    TrueColor { r: u8, g: u8, b: u8 },
}

/// One of the eight standard colours, which a bright colour shares with its
/// normal form.
#[derive(Clone, Copy)]
enum Hue {
    Black,
    Red,
    Green,
    Yellow,
    Blue,
    Magenta,
    Cyan,
    White,
}

/// A style that can be applied to a piece of text.
#[derive(Clone, Copy, Debug, PartialEq, Eq, Hash, Structural)]
pub enum Paint {
    /// Bold, in the terminal's default colour.
    Bold,
    /// A foreground colour, normal weight.
    Tint(Color),
    /// A foreground colour, bold.
    BoldTint(Color),
}

/// The code that ends all styling: `ESC [ 0 m`.
pub open spec fn reset_code() -> Seq<char> {
    seq!['\u{1b}', '[', '0', 'm']
}

/// True for the sixteen colours that have a name: the standard ones and their
/// bright forms.
pub open spec fn is_named(color: Color) -> bool {
    !(color is AnsiColor) && !(color is TrueColor)
}

/// The parameters that select `color` as the foreground colour.
pub open spec fn hue_code(color: Color) -> Seq<char> {
    match color {
        Color::Black => seq!['3', '0'],
        Color::Red => seq!['3', '1'],
        Color::Green => seq!['3', '2'],
        Color::Yellow => seq!['3', '3'],
        Color::Blue => seq!['3', '4'],
        Color::Magenta => seq!['3', '5'],
        Color::Cyan => seq!['3', '6'],
        Color::White => seq!['3', '7'],
        Color::BrightBlack => seq!['9', '0'],
        Color::BrightRed => seq!['9', '1'],
        Color::BrightGreen => seq!['9', '2'],
        Color::BrightYellow => seq!['9', '3'],
        Color::BrightBlue => seq!['9', '4'],
        Color::BrightMagenta => seq!['9', '5'],
        Color::BrightCyan => seq!['9', '6'],
        Color::BrightWhite => seq!['9', '7'],
        Color::AnsiColor(index) => seq!['3', '8', ';', '5', ';'] + decimal(index as nat),
        Color::TrueColor { r, g, b } => seq!['3', '8', ';', '2', ';'] + decimal(r as nat) + seq![
            ';',
        ] + decimal(g as nat) + seq![';'] + decimal(b as nat),
    }
}

/// The normal form of a standard colour.
spec fn normal(hue: Hue) -> Color {
    match hue {
        Hue::Black => Color::Black,
        Hue::Red => Color::Red,
        Hue::Green => Color::Green,
        Hue::Yellow => Color::Yellow,
        Hue::Blue => Color::Blue,
        Hue::Magenta => Color::Magenta,
        Hue::Cyan => Color::Cyan,
        Hue::White => Color::White,
    }
}

/// The bright form of a standard colour.
spec fn bright(hue: Hue) -> Color {
    match hue {
        Hue::Black => Color::BrightBlack,
        Hue::Red => Color::BrightRed,
        Hue::Green => Color::BrightGreen,
        Hue::Yellow => Color::BrightYellow,
        Hue::Blue => Color::BrightBlue,
        Hue::Magenta => Color::BrightMagenta,
        Hue::Cyan => Color::BrightCyan,
        Hue::White => Color::BrightWhite,
    }
}

/// The code that switches `paint` on: `ESC [`, the parameters, `m`.
pub open spec fn start_code(paint: Paint) -> Seq<char> {
    match paint {
        Paint::Bold => seq!['\u{1b}', '[', '1', 'm'],
        Paint::Tint(color) => seq!['\u{1b}', '['] + hue_code(color) + seq!['m'],
        Paint::BoldTint(color) => seq!['\u{1b}', '[', '1', ';'] + hue_code(color) + seq!['m'],
    }
}

/// True if the reset code occurs somewhere in `text`.
pub open spec fn has_reset(text: Seq<char>) -> bool {
    exists|i: int| 0 <= i && i + 4 <= text.len() && #[trigger] text.subrange(i, i + 4) == reset_code()
}

/// `text` with `start` inserted after every reset code in it, so that a style
/// switched off by a nested styled text is switched on again.
pub open spec fn resumed(text: Seq<char>, start: Seq<char>) -> Seq<char>
    decreases text.len(),
{
    if text.len() == 0 {
        text
    } else if text.len() >= 4 && text.take(4) == reset_code() {
        reset_code() + start + resumed(text.skip(4), start)
    } else {
        seq![text[0]] + resumed(text.skip(1), start)
    }
}

/// `text` with the escape codes for `paint` around it.
pub open spec fn coded(paint: Paint, text: Seq<char>) -> Seq<char> {
    start_code(paint) + resumed(text, start_code(paint)) + reset_code()
}

/// True if `out` is `text` in the escape codes of a named colour that stands
/// in for the colour of `paint`. That can only be where the colour is given by
/// its red, green and blue parts: a terminal that does not announce support
/// for such colours gets the named colour nearest to it.
pub open spec fn is_downgraded(paint: Paint, text: Seq<char>, out: Seq<char>) -> bool {
    match paint {
        Paint::Bold => false,
        Paint::Tint(color) => color is TrueColor && exists|near: Color|
            is_named(near) && out == #[trigger] coded(Paint::Tint(near), text),
        Paint::BoldTint(color) => color is TrueColor && exists|near: Color|
            is_named(near) && out == #[trigger] coded(Paint::BoldTint(near), text),
    }
}

/// True if `out` is one of the forms that `text` in style `paint` can take: the
/// bare text where colouring is switched off; the coded text where it is on;
/// and, for a colour given by its parts, the text coded in a named colour.
pub open spec fn paints(paint: Paint, text: Seq<char>, out: Seq<char>) -> bool {
    out == text || out == coded(paint, text) || is_downgraded(paint, text, out)
}

/// A text without a reset code passes through `resumed` unchanged.
pub proof fn lemma_resumed_plain(text: Seq<char>, start: Seq<char>)
    requires
        !has_reset(text),
    ensures
        resumed(text, start) == text,
    decreases text.len(),
{
    if text.len() == 0 {
    } else {
        if text.len() >= 4 {
            assert(text.take(4) =~= text.subrange(0int, 0int + 4));
        }
        let rest = text.skip(1);
        if has_reset(rest) {
            let i = choose|i: int|
                0 <= i && i + 4 <= rest.len() && #[trigger] rest.subrange(i, i + 4) == reset_code();
            assert(text.subrange(i + 1, i + 1 + 4) =~= rest.subrange(i, i + 4));
        }
        lemma_resumed_plain(rest, start);
        assert(seq![text[0]] + rest =~= text);
    }
}

/// Where no reset code starts inside `head`, `resumed` leaves `head` as it is
/// and goes on with what follows it.
pub proof fn lemma_resumed_after(head: Seq<char>, rest: Seq<char>, start: Seq<char>)
    requires
        forall|i: int|
            0 <= i < head.len() && i + 4 <= (head + rest).len() ==> #[trigger] (head + rest).subrange(
                i,
                i + 4,
            ) != reset_code(),
    ensures
        resumed(head + rest, start) == head + resumed(rest, start),
    decreases head.len(),
{
    let text = head + rest;
    if head.len() == 0 {
        assert(text =~= rest);
        assert(head + resumed(rest, start) =~= resumed(rest, start));
    } else {
        if text.len() >= 4 {
            assert(text.take(4) =~= text.subrange(0int, 0int + 4));
        }
        let shorter = head.skip(1);
        assert(text.skip(1) =~= shorter + rest);
        assert forall|i: int|
            0 <= i < shorter.len() && i + 4 <= (shorter + rest).len() implies #[trigger] (shorter
                + rest).subrange(i, i + 4) != reset_code() by {
            assert((shorter + rest).subrange(i, i + 4) =~= text.subrange(i + 1, i + 1 + 4));
        }
        lemma_resumed_after(shorter, rest, start);
        assert(seq![text[0]] + (shorter + resumed(rest, start)) =~= head + resumed(rest, start));
    }
}

/// At a reset code, `resumed` repeats the start code after it.
pub proof fn lemma_resumed_at_reset(rest: Seq<char>, start: Seq<char>)
    ensures
        resumed(reset_code() + rest, start) == reset_code() + start + resumed(rest, start),
{
    let text = reset_code() + rest;
    assert(text.take(4) =~= reset_code());
    assert(text.skip(4) =~= rest);
}

/// No start code holds a line feed.
pub proof fn lemma_start_code_is_single(paint: Paint)
    ensures
        single_line(start_code(paint)),
{
    match paint {
        Paint::Bold => {},
        Paint::Tint(color) | Paint::BoldTint(color) => {
            match color {
                Color::AnsiColor(index) => {
                    lemma_decimal_is_digits(index as nat);
                },
                Color::TrueColor { r, g, b } => {
                    lemma_decimal_is_digits(r as nat);
                    lemma_decimal_is_digits(g as nat);
                    lemma_decimal_is_digits(b as nat);
                },
                _ => {},
            }
        },
    }
}

/// Repeating a start code after the reset codes of a text brings no line feed
/// into it.
pub proof fn lemma_resumed_is_single(text: Seq<char>, start: Seq<char>)
    requires
        single_line(text),
        single_line(start),
    ensures
        single_line(resumed(text, start)),
    decreases text.len(),
{
    if text.len() == 0 {
    } else if text.len() >= 4 && text.take(4) == reset_code() {
        let rest = text.skip(4);
        assert forall|i: int| 0 <= i < rest.len() implies rest[i] != '\n' by {
            assert(rest[i] == text[i + 4]);
        }
        lemma_resumed_is_single(rest, start);
    } else {
        let rest = text.skip(1);
        assert forall|i: int| 0 <= i < rest.len() implies rest[i] != '\n' by {
            assert(rest[i] == text[i + 1]);
        }
        lemma_resumed_is_single(rest, start);
        assert(text[0] != '\n');
    }
}

/// Styling a text without a line feed gives a text without one.
pub proof fn lemma_painted_is_single(paint: Paint, text: Seq<char>, out: Seq<char>)
    requires
        paints(paint, text, out),
        single_line(text),
    ensures
        single_line(out),
{
    if out != text {
        let shown = if out == coded(paint, text) {
            paint
        } else {
            match paint {
                Paint::Tint(_) => Paint::Tint(
                    choose|near: Color|
                        is_named(near) && out == #[trigger] coded(Paint::Tint(near), text),
                ),
                _ => Paint::BoldTint(
                    choose|near: Color|
                        is_named(near) && out == #[trigger] coded(Paint::BoldTint(near), text),
                ),
            }
        };
        assert(out == coded(shown, text));
        lemma_start_code_is_single(shown);
        lemma_resumed_is_single(text, start_code(shown));
    }
}

/// `Colorize::bold` on a `&str`, then `to_string` on the `ColoredString`:
/// the text itself where colouring is off, else `ESC [ 1 m`, the text with that
/// code repeated after each reset code in it, and the reset code.
/// Assumes that the colour switch is not flipped while the call runs.
#[verifier::external_body]
fn bold(text: &str) -> (out: String)
    ensures
        paints(Paint::Bold, text@, out@),
{
    text.bold().to_string()
}

/// `Colorize::color` on a `&str`, then `to_string` on the `ColoredString`,
/// for the normal form of a standard colour: the text itself where colouring is
/// off, else `ESC [ 3x m` with `x` the colour's digit, the text with that
/// code repeated after each reset code in it, and the reset code.
/// Assumes that the colour switch is not flipped while the call runs.
#[verifier::external_body]
fn tint_normal(text: &str, hue: Hue) -> (out: String)
    ensures
        paints(Paint::Tint(normal(hue)), text@, out@),
{
    let hue = match hue {
        Hue::Black => colored::Color::Black,
        Hue::Red => colored::Color::Red,
        Hue::Green => colored::Color::Green,
        Hue::Yellow => colored::Color::Yellow,
        Hue::Blue => colored::Color::Blue,
        Hue::Magenta => colored::Color::Magenta,
        Hue::Cyan => colored::Color::Cyan,
        Hue::White => colored::Color::White,
    };
    text.color(hue).to_string()
}

/// `Colorize::color` on a `&str`, then `to_string` on the `ColoredString`,
/// for the bright form of a standard colour: the text itself where colouring is
/// off, else `ESC [ 9x m` with `x` the colour's digit, the text with that
/// code repeated after each reset code in it, and the reset code.
/// Assumes that the colour switch is not flipped while the call runs.
#[verifier::external_body]
fn tint_bright(text: &str, hue: Hue) -> (out: String)
    ensures
        paints(Paint::Tint(bright(hue)), text@, out@),
{
    let hue = match hue {
        Hue::Black => colored::Color::BrightBlack,
        Hue::Red => colored::Color::BrightRed,
        Hue::Green => colored::Color::BrightGreen,
        Hue::Yellow => colored::Color::BrightYellow,
        Hue::Blue => colored::Color::BrightBlue,
        Hue::Magenta => colored::Color::BrightMagenta,
        Hue::Cyan => colored::Color::BrightCyan,
        Hue::White => colored::Color::BrightWhite,
    };
    text.color(hue).to_string()
}

/// `Colorize::color` on a `&str`, then `to_string` on the `ColoredString`,
/// for a colour of the palette: the text itself where colouring is off, else
/// `ESC [ 38 ; 5 ; n m` with `n` the index in decimal, the text with that code
/// repeated after each reset code in it, and the reset code.
/// Assumes that the colour switch is not flipped while the call runs.
#[verifier::external_body]
fn tint_indexed(text: &str, index: u8) -> (out: String)
    ensures
        paints(Paint::Tint(Color::AnsiColor(index)), text@, out@),
{
    text.color(colored::Color::AnsiColor(index)).to_string()
}

/// `Colorize::color` on a `&str`, then `to_string` on the `ColoredString`,
/// for a colour given by its parts: the text itself where colouring is off,
/// else a start code, the text with that code repeated after each reset code
/// in it, and the reset code. The start code is `ESC [ 38 ; 2 ; r ; g ; b m`
/// with the parts in decimal where the variable `COLORTERM` announces such
/// colours, else that of one of the sixteen named colours.
/// Assumes that neither the colour switch nor that variable changes while the
/// call runs.
#[verifier::external_body]
fn tint_rgb(text: &str, r: u8, g: u8, b: u8) -> (out: String)
    ensures
        paints(Paint::Tint(Color::TrueColor { r, g, b }), text@, out@),
{
    text.color(colored::Color::TrueColor { r, g, b }).to_string()
}

/// `Colorize::color`, then `Colorize::bold`, then `to_string` on the
/// `ColoredString`,
/// for the normal form of a standard colour: the text itself where colouring is
/// off, else `ESC [ 1 ; 3x m` with `x` the colour's digit, the text with that
/// code repeated after each reset code in it, and the reset code.
/// Assumes that the colour switch is not flipped while the call runs.
#[verifier::external_body]
fn bold_tint_normal(text: &str, hue: Hue) -> (out: String)
    ensures
        paints(Paint::BoldTint(normal(hue)), text@, out@),
{
    let hue = match hue {
        Hue::Black => colored::Color::Black,
        Hue::Red => colored::Color::Red,
        Hue::Green => colored::Color::Green,
        Hue::Yellow => colored::Color::Yellow,
        Hue::Blue => colored::Color::Blue,
        Hue::Magenta => colored::Color::Magenta,
        Hue::Cyan => colored::Color::Cyan,
        Hue::White => colored::Color::White,
    };
    text.color(hue).bold().to_string()
}

/// `Colorize::color`, then `Colorize::bold`, then `to_string` on the
/// `ColoredString`,
/// for the bright form of a standard colour: the text itself where colouring is
/// off, else `ESC [ 1 ; 9x m` with `x` the colour's digit, the text with that
/// code repeated after each reset code in it, and the reset code.
/// Assumes that the colour switch is not flipped while the call runs.
#[verifier::external_body]
fn bold_tint_bright(text: &str, hue: Hue) -> (out: String)
    ensures
        paints(Paint::BoldTint(bright(hue)), text@, out@),
{
    let hue = match hue {
        Hue::Black => colored::Color::BrightBlack,
        Hue::Red => colored::Color::BrightRed,
        Hue::Green => colored::Color::BrightGreen,
        Hue::Yellow => colored::Color::BrightYellow,
        Hue::Blue => colored::Color::BrightBlue,
        Hue::Magenta => colored::Color::BrightMagenta,
        Hue::Cyan => colored::Color::BrightCyan,
        Hue::White => colored::Color::BrightWhite,
    };
    text.color(hue).bold().to_string()
}

/// `Colorize::color`, then `Colorize::bold`, then `to_string` on the
/// `ColoredString`,
/// for a colour of the palette: the text itself where colouring is off, else
/// `ESC [ 1 ; 38 ; 5 ; n m` with `n` the index in decimal, the text with that code
/// repeated after each reset code in it, and the reset code.
/// Assumes that the colour switch is not flipped while the call runs.
#[verifier::external_body]
fn bold_tint_indexed(text: &str, index: u8) -> (out: String)
    ensures
        paints(Paint::BoldTint(Color::AnsiColor(index)), text@, out@),
{
    text.color(colored::Color::AnsiColor(index)).bold().to_string()
}

/// `Colorize::color`, then `Colorize::bold`, then `to_string` on the
/// `ColoredString`,
/// for a colour given by its parts: the text itself where colouring is off,
/// else a start code, the text with that code repeated after each reset code
/// in it, and the reset code. The start code is `ESC [ 1 ; 38 ; 2 ; r ; g ; b m`
/// with the parts in decimal where the variable `COLORTERM` announces such
/// colours, else that of one of the sixteen named colours.
/// Assumes that neither the colour switch nor that variable changes while the
/// call runs.
#[verifier::external_body]
fn bold_tint_rgb(text: &str, r: u8, g: u8, b: u8) -> (out: String)
    ensures
        paints(Paint::BoldTint(Color::TrueColor { r, g, b }), text@, out@),
{
    text.color(colored::Color::TrueColor { r, g, b }).bold().to_string()
}

/// `text` in `color`.
fn tint(text: &str, color: Color) -> (out: String)
    ensures
        paints(Paint::Tint(color), text@, out@),
{
    match color {
        Color::Black => tint_normal(text, Hue::Black),
        Color::Red => tint_normal(text, Hue::Red),
        Color::Green => tint_normal(text, Hue::Green),
        Color::Yellow => tint_normal(text, Hue::Yellow),
        Color::Blue => tint_normal(text, Hue::Blue),
        Color::Magenta => tint_normal(text, Hue::Magenta),
        Color::Cyan => tint_normal(text, Hue::Cyan),
        Color::White => tint_normal(text, Hue::White),
        Color::BrightBlack => tint_bright(text, Hue::Black),
        Color::BrightRed => tint_bright(text, Hue::Red),
        Color::BrightGreen => tint_bright(text, Hue::Green),
        Color::BrightYellow => tint_bright(text, Hue::Yellow),
        Color::BrightBlue => tint_bright(text, Hue::Blue),
        Color::BrightMagenta => tint_bright(text, Hue::Magenta),
        Color::BrightCyan => tint_bright(text, Hue::Cyan),
        Color::BrightWhite => tint_bright(text, Hue::White),
        Color::AnsiColor(index) => tint_indexed(text, index),
        Color::TrueColor { r, g, b } => tint_rgb(text, r, g, b),
    }
}

/// `text` in bold and in `color`.
fn bold_tint(text: &str, color: Color) -> (out: String)
    ensures
        paints(Paint::BoldTint(color), text@, out@),
{
    match color {
        Color::Black => bold_tint_normal(text, Hue::Black),
        Color::Red => bold_tint_normal(text, Hue::Red),
        Color::Green => bold_tint_normal(text, Hue::Green),
        Color::Yellow => bold_tint_normal(text, Hue::Yellow),
        Color::Blue => bold_tint_normal(text, Hue::Blue),
        Color::Magenta => bold_tint_normal(text, Hue::Magenta),
        Color::Cyan => bold_tint_normal(text, Hue::Cyan),
        Color::White => bold_tint_normal(text, Hue::White),
        Color::BrightBlack => bold_tint_bright(text, Hue::Black),
        Color::BrightRed => bold_tint_bright(text, Hue::Red),
        Color::BrightGreen => bold_tint_bright(text, Hue::Green),
        Color::BrightYellow => bold_tint_bright(text, Hue::Yellow),
        Color::BrightBlue => bold_tint_bright(text, Hue::Blue),
        Color::BrightMagenta => bold_tint_bright(text, Hue::Magenta),
        Color::BrightCyan => bold_tint_bright(text, Hue::Cyan),
        Color::BrightWhite => bold_tint_bright(text, Hue::White),
        Color::AnsiColor(index) => bold_tint_indexed(text, index),
        Color::TrueColor { r, g, b } => bold_tint_rgb(text, r, g, b),
    }
}

/// Styles `text`.
pub fn paint(text: &str, style: Paint) -> (out: String)
    ensures
        paints(style, text@, out@),
{
    match style {
        Paint::Bold => bold(text),
        Paint::Tint(color) => tint(text, color),
        Paint::BoldTint(color) => bold_tint(text, color),
    }
}

} // verus!
