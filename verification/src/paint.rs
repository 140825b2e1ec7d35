//! Coloured text for a terminal, by the `colored` crate. Whether there are
//! colours is up to the environment, which that crate looks at more than once
//! for a text: what is said here is of an environment that stays as it is
//! meanwhile.

use colored::Colorize;
use vstd::prelude::*;
use crate::text::decimal;

verus! {

/// How a piece of text is shown.
#[derive(Clone, Copy, Debug, PartialEq, Eq, Structural)]
pub enum Style {
    Plain,
    Rgb(u8, u8, u8),
    BrightGreen,
    BrightGreenBold,
    BrightWhite,
    BrightWhiteBold,
    BrightYellow,
    BrightYellowBold,
    BrightMagentaBold,
}

/// A piece of text and how it is shown.
#[derive(Debug)]
pub struct Span {
    pub text: String,
    pub style: Style,
}

/// A piece of text as characters, and how it is shown.
pub struct Piece {
    pub text: Seq<char>,
    pub style: Style,
}

impl View for Span {
    type V = Piece;

    open spec fn view(&self) -> Piece {
        Piece { text: self.text@, style: self.style }
    }
}

/// The pieces of a line.
pub open spec fn pieces(spans: Seq<Span>) -> Seq<Piece> {
    Seq::new(spans.len(), |i: int| spans[i]@)
}

/// A piece of text in a style.
pub open spec fn piece(text: Seq<char>, style: Style) -> Piece {
    Piece { text, style }
}

/// The terminal's escape sequence that turns a style on.
pub open spec fn escape(code: Seq<char>) -> Seq<char> {
    seq!['\u{1b}', '['] + code + seq!['m']
}

/// The terminal's escape sequence that turns every style off.
pub open spec fn reset() -> Seq<char> {
    seq!['\u{1b}', '[', '0', 'm']
}

/// `text` with a style turned on again after each reset in it.
pub open spec fn kept_on(text: Seq<char>, on: Seq<char>) -> Seq<char>
    decreases text.len(),
{
    if text.len() == 0 {
        text
    } else if text.len() >= 4 && text.take(4) == reset() {
        reset() + on + kept_on(text.skip(4), on)
    } else {
        seq![text[0]] + kept_on(text.drop_first(), on)
    }
}

/// `out` shows `text` in the style of `code`, or as it is where the terminal
/// or the environment asks for no colours.
pub open spec fn shown_as(text: Seq<char>, code: Seq<char>, out: Seq<char>) -> bool {
    out == text || out == escape(code) + kept_on(text, escape(code)) + reset()
}

/// The code of a colour of red, green and blue.
pub open spec fn rgb_code(r: u8, g: u8, b: u8) -> Seq<char> {
    "38;2;"@ + decimal(r as nat) + seq![';'] + decimal(g as nat) + seq![';'] + decimal(b as nat)
}

/// The code of the terminal's basic colour that the `colored` crate takes in
/// place of a colour of red, green and blue, on a terminal without those.
pub uninterp spec fn nearest_code(r: u8, g: u8, b: u8) -> Seq<char>;

/// `Colorize::truecolor`: the text in a colour of red, green and blue, in the
/// basic colour nearest to it, or as it is, as the environment asks.
#[verifier::external_body]
fn truecolor(text: &str, red: u8, green: u8, blue: u8) -> (out: String)
    ensures
        shown_as(text@, rgb_code(red, green, blue), out@) || shown_as(
            text@,
            nearest_code(red, green, blue),
            out@,
        ),
{
    text.truecolor(red, green, blue).to_string()
}

/// `Colorize::bright_green`: the text in bright green, or as it is, as the
/// environment asks.
#[verifier::external_body]
fn bright_green(text: &str) -> (out: String)
    ensures
        shown_as(text@, "92"@, out@),
{
    text.bright_green().to_string()
}

/// `Colorize::bright_green` and `Colorize::bold`: the text in bold bright
/// green, or as it is, as the environment asks.
#[verifier::external_body]
fn bright_green_bold(text: &str) -> (out: String)
    ensures
        shown_as(text@, "1;92"@, out@),
{
    text.bright_green().bold().to_string()
}

/// `Colorize::bright_white`: the text in bright white, or as it is, as the
/// environment asks.
#[verifier::external_body]
fn bright_white(text: &str) -> (out: String)
    ensures
        shown_as(text@, "97"@, out@),
{
    text.bright_white().to_string()
}

/// `Colorize::bright_white` and `Colorize::bold`: the text in bold bright
/// white, or as it is, as the environment asks.
#[verifier::external_body]
fn bright_white_bold(text: &str) -> (out: String)
    ensures
        shown_as(text@, "1;97"@, out@),
{
    text.bright_white().bold().to_string()
}

/// `Colorize::bright_yellow`: the text in bright yellow, or as it is, as the
/// environment asks.
#[verifier::external_body]
fn bright_yellow(text: &str) -> (out: String)
    ensures
        shown_as(text@, "93"@, out@),
{
    text.bright_yellow().to_string()
}

/// `Colorize::bright_yellow` and `Colorize::bold`: the text in bold bright
/// yellow, or as it is, as the environment asks.
#[verifier::external_body]
fn bright_yellow_bold(text: &str) -> (out: String)
    ensures
        shown_as(text@, "1;93"@, out@),
{
    text.bright_yellow().bold().to_string()
}

/// `Colorize::bright_magenta` and `Colorize::bold`: the text in bold bright
/// magenta, or as it is, as the environment asks.
#[verifier::external_body]
fn bright_magenta_bold(text: &str) -> (out: String)
    ensures
        shown_as(text@, "1;95"@, out@),
{
    text.bright_magenta().bold().to_string()
}

/// `out` shows `p`, with or without its style.
pub open spec fn shows(p: Piece, out: Seq<char>) -> bool {
    match p.style {
        Style::Plain => out == p.text,
        Style::Rgb(r, g, b) => shown_as(p.text, rgb_code(r, g, b), out) || shown_as(
            p.text,
            nearest_code(r, g, b),
            out,
        ),
        Style::BrightGreen => shown_as(p.text, "92"@, out),
        Style::BrightGreenBold => shown_as(p.text, "1;92"@, out),
        Style::BrightWhite => shown_as(p.text, "97"@, out),
        Style::BrightWhiteBold => shown_as(p.text, "1;97"@, out),
        Style::BrightYellow => shown_as(p.text, "93"@, out),
        Style::BrightYellowBold => shown_as(p.text, "1;93"@, out),
        Style::BrightMagentaBold => shown_as(p.text, "1;95"@, out),
    }
}

/// `out` shows the pieces of a line one after the other.
pub open spec fn shows_line(line: Seq<Piece>, out: Seq<char>) -> bool
    decreases line.len(),
{
    if line.len() == 0 {
        out.len() == 0
    } else {
        exists|k: int|
            0 <= k <= out.len() && shows_line(line.drop_last(), #[trigger] out.take(k)) && shows(
                line.last(),
                out.skip(k),
            )
    }
}

/// The text in a style.
pub fn paint(text: &str, style: Style) -> (out: String)
    ensures
        shows(piece(text@, style), out@),
{
    match style {
        Style::Plain => text.to_owned(),
        Style::Rgb(r, g, b) => truecolor(text, r, g, b),
        Style::BrightGreen => bright_green(text),
        Style::BrightGreenBold => bright_green_bold(text),
        Style::BrightWhite => bright_white(text),
        Style::BrightWhiteBold => bright_white_bold(text),
        Style::BrightYellow => bright_yellow(text),
        Style::BrightYellowBold => bright_yellow_bold(text),
        Style::BrightMagentaBold => bright_magenta_bold(text),
    }
}

/// The pieces of a line one after the other, each in its style.
pub fn render(spans: &Vec<Span>) -> (out: String)
    ensures
        shows_line(pieces(spans@), out@),
{
    let ghost line = pieces(spans@);
    let mut out = String::new();
    let mut i: usize = 0;
    while i < spans.len()
        invariant
            line == pieces(spans@),
            i <= spans@.len(),
            shows_line(line.take(i as int), out@),
        decreases spans@.len() - i,
    {
        let ghost before = out@;
        let next = paint(spans[i].text.as_str(), spans[i].style);
        out.append(next.as_str());
        i += 1;
        proof {
            let done = line.take(i as int);
            assert(done.drop_last() =~= line.take(i - 1));
            assert(out@.take(before.len() as int) =~= before);
            assert(out@.skip(before.len() as int) =~= next@);
            assert(done.last() == piece(spans@[i - 1].text@, spans@[i - 1].style));
        }
    }
    assert(line.take(i as int) =~= line);
    out
}

/// The text of a line without its styles.
pub open spec fn plain_text(line: Seq<Piece>) -> Seq<char>
    decreases line.len(),
{
    if line.len() == 0 {
        seq![]
    } else {
        plain_text(line.drop_last()) + line.last().text
    }
}

/// Law: the text of a line without its styles is one way to show it, the one
/// for a terminal without colours.
pub proof fn law_plain_text(line: Seq<Piece>)
    ensures
        shows_line(line, plain_text(line)),
    decreases line.len(),
{
    if line.len() > 0 {
        law_plain_text(line.drop_last());
        let head = plain_text(line.drop_last());
        let out = plain_text(line);
        assert(out.take(head.len() as int) =~= head);
        assert(out.skip(head.len() as int) =~= line.last().text);
    }
}

/// Law: a text with no escape character in it is shown between the two escape
/// sequences as it is.
pub proof fn law_text_is_kept(text: Seq<char>, on: Seq<char>)
    requires
        !text.contains('\u{1b}'),
    ensures
        kept_on(text, on) == text,
    decreases text.len(),
{
    if text.len() > 0 {
        if text.len() >= 4 && text.take(4) == reset() {
            assert(text.take(4)[0] == text[0]);
            assert(reset()[0] == '\u{1b}');
            assert(false);
        }
        let rest = text.drop_first();
        assert(!rest.contains('\u{1b}')) by {
            if rest.contains('\u{1b}') {
                let j = choose|j: int| 0 <= j < rest.len() && rest[j] == '\u{1b}';
                assert(text[j + 1] == '\u{1b}');
            }
        }
        law_text_is_kept(rest, on);
        assert(seq![text[0]] + rest =~= text);
    }
}

/// A piece of text in a style.
pub fn span(text: &str, style: Style) -> (r: Span)
    ensures
        r@ == piece(text@, style),
{
    Span { text: text.to_owned(), style }
}

/// The text of a line of four pieces.
pub proof fn lemma_plain_of_four(line: Seq<Piece>)
    requires
        line.len() == 4,
    ensures
        plain_text(line) == line[0].text + line[1].text + line[2].text + line[3].text,
{
    reveal_with_fuel(plain_text, 5);
    let a = line.drop_last();
    let b = a.drop_last();
    let c = b.drop_last();
    assert(c.drop_last().len() == 0);
    assert(plain_text(c) =~= line[0].text);
}

/// Law: the texts of two lines are the text of both.
pub proof fn law_plain_text_of_both(a: Seq<Piece>, b: Seq<Piece>)
    ensures
        plain_text(a + b) == plain_text(a) + plain_text(b),
    decreases b.len(),
{
    if b.len() == 0 {
        assert(a + b =~= a);
        assert(plain_text(a) + plain_text(b) =~= plain_text(a));
    } else {
        law_plain_text_of_both(a, b.drop_last());
        assert((a + b).drop_last() =~= a + b.drop_last());
        assert(plain_text(a) + plain_text(b.drop_last()) + b.last().text =~= plain_text(a) + (
        plain_text(b.drop_last()) + b.last().text));
    }
}

/// Law: what shows one line and what shows another show, one after the other,
/// both; and a line of one piece is shown by what shows the piece.
pub proof fn law_shown_in_order(
    a: Seq<Piece>,
    x: Seq<char>,
    b: Seq<Piece>,
    y: Seq<char>,
    p: Piece,
    z: Seq<char>,
)
    ensures
        shows_line(a, x) && shows_line(b, y) ==> shows_line(a + b, x + y),
        shows(p, z) ==> shows_line(seq![p], z),
    decreases b.len(),
{
    if shows(p, z) {
        let one = seq![p];
        assert(one.drop_last().len() == 0);
        assert(z.take(0).len() == 0);
        assert(z.skip(0) =~= z);
        assert(shows_line(one.drop_last(), z.take(0)));
    }
    if shows_line(a, x) && shows_line(b, y) {
        let all = a + b;
        let out = x + y;
        if b.len() == 0 {
            assert(all =~= a);
            assert(out =~= x);
        } else {
            let k = choose|k: int|
                0 <= k <= y.len() && shows_line(b.drop_last(), #[trigger] y.take(k)) && shows(
                    b.last(),
                    y.skip(k),
                );
            law_shown_in_order(a, x, b.drop_last(), y.take(k), p, z);
            let n = x.len() + k;
            assert(all.drop_last() =~= a + b.drop_last());
            assert(out.take(n) =~= x + y.take(k));
            assert(out.skip(n) =~= y.skip(k));
            assert(all.last() == b.last());
        }
    }
}

/// Law: what shows a piece is its text, or its text between the sequences that
/// turn its style on and off.
pub proof fn law_shown_text(p: Piece, out: Seq<char>)
    requires
        shows(p, out),
        !p.text.contains('\u{1b}'),
    ensures
        out == p.text || exists|on: Seq<char>|
            out == #[trigger] (on + p.text) + seq!['\u{1b}', '[', '0', 'm'] && p.style
                != Style::Plain && on.len() >= 3 && on[0] == '\u{1b}' && on[1] == '[' && on.last()
                == 'm',
{
    if out != p.text {
        let code = choose|code: Seq<char>| #[trigger]
            escape(code) + kept_on(p.text, escape(code)) + reset() == out;
        let on = escape(code);
        law_text_is_kept(p.text, on);
        assert(out == on + p.text + reset());
    }
}

} // verus!
