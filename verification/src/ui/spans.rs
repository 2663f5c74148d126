//! Pieces of text with a tone, and the colours that a theme gives to tones.
use vstd::prelude::*;

use crate::lists::push_item;

verus! {

// -- spans --

#[derive(Clone, Copy, PartialEq, Eq, Structural, Debug)]
pub enum Tone {
    Plain,
    Accent,
    Good,
    Bad,
    Dim,
    Gold,
}

/// A piece of text on the screen.
#[derive(Debug, PartialEq, Eq)]
pub struct Span {
    pub text: String,
    pub tone: Tone,
    pub bold: bool,
}

pub struct SpanView {
    pub text: Seq<char>,
    pub tone: Tone,
    pub bold: bool,
}

impl DeepView for Span {
    type V = SpanView;

    open spec fn deep_view(&self) -> SpanView {
        SpanView { text: self.text@, tone: self.tone, bold: self.bold }
    }
}

/// A text in a tone.
pub open spec fn toned(text: Seq<char>, tone: Tone) -> SpanView {
    SpanView { text, tone, bold: false }
}

pub fn span(text: String, tone: Tone) -> (r: Span)
    ensures
        r.deep_view() == toned(text@, tone),
{
    Span { text, tone, bold: false }
}

/// A text in bold, in a tone.
pub open spec fn strong(text: Seq<char>, tone: Tone) -> SpanView {
    SpanView { text, tone, bold: true }
}

pub fn bold_span(text: String, tone: Tone) -> (r: Span)
    ensures
        r.deep_view() == strong(text@, tone),
{
    Span { text, tone, bold: true }
}

/// One more span on a line.
pub fn add_span(line: &mut Vec<Span>, text: String, tone: Tone)
    ensures
        final(line).deep_view() == old(line).deep_view().push(toned(text@, tone)),
{
    push_item(line, span(text, tone));
}

pub fn add_bold(line: &mut Vec<Span>, text: String, tone: Tone)
    ensures
        final(line).deep_view() == old(line).deep_view().push(strong(text@, tone)),
{
    push_item(line, bold_span(text, tone));
}

/// A line of one span.
pub fn one_span(text: String, tone: Tone) -> (r: Vec<Span>)
    ensures
        r.deep_view() == seq![toned(text@, tone)],
{
    let mut line: Vec<Span> = Vec::new();
    add_span(&mut line, text, tone);
    assert(line.deep_view() =~= seq![toned(text@, tone)]);
    line
}

/// A line that may not be there.
pub open spec fn maybe(line: Option<Vec<Span>>) -> Option<Seq<SpanView>> {
    match line {
        Some(l) => Some(l.deep_view()),
        None => None,
    }
}

// -- themes --

#[derive(Clone, Copy, PartialEq, Eq, Structural, Debug)]
pub enum Color {
    Rgb(u8, u8, u8),
    Black,
    White,
    Gray,
    DarkGray,
    Cyan,
}

#[derive(Clone, Copy, PartialEq, Eq, Structural, Debug)]
pub struct Theme {
    pub accent: Color,
    pub on_accent: Color,
    pub good: Color,
    pub bad: Color,
    pub dim: Color,
    pub gold: Color,
    pub panel: Color,
    pub select_bg: Color,
}

/// The theme at a place of the list of themes; the last one stands for all
/// places beyond.
pub open spec fn palette(i: int) -> Theme {
    if i == 0 {
        Theme {
            accent: Color::Cyan,
            on_accent: Color::Black,
            good: Color::Rgb(63, 185, 80),
            bad: Color::Rgb(248, 81, 73),
            dim: Color::Rgb(120, 130, 145),
            gold: Color::Rgb(210, 168, 60),
            panel: Color::Rgb(70, 78, 92),
            select_bg: Color::Rgb(30, 60, 90),
        }
    } else if i == 1 {
        Theme {
            accent: Color::Rgb(9, 105, 218),
            on_accent: Color::White,
            good: Color::Rgb(26, 127, 55),
            bad: Color::Rgb(207, 34, 46),
            dim: Color::Rgb(101, 109, 118),
            gold: Color::Rgb(154, 103, 0),
            panel: Color::Rgb(175, 184, 193),
            select_bg: Color::Rgb(218, 233, 250),
        }
    } else if i == 2 {
        Theme {
            accent: Color::Rgb(131, 165, 152),
            on_accent: Color::Rgb(40, 40, 40),
            good: Color::Rgb(184, 187, 38),
            bad: Color::Rgb(251, 73, 52),
            dim: Color::Rgb(146, 131, 116),
            gold: Color::Rgb(250, 189, 47),
            panel: Color::Rgb(80, 73, 69),
            select_bg: Color::Rgb(60, 56, 54),
        }
    } else {
        Theme {
            accent: Color::White,
            on_accent: Color::Black,
            good: Color::Gray,
            bad: Color::White,
            dim: Color::DarkGray,
            gold: Color::White,
            panel: Color::DarkGray,
            select_bg: Color::DarkGray,
        }
    }
}

impl Theme {
    pub fn at(i: usize) -> (r: Theme)
        ensures
            r == palette(i as int),
    {
        if i == 0 {
            Theme {
                accent: Color::Cyan,
                on_accent: Color::Black,
                good: Color::Rgb(63, 185, 80),
                bad: Color::Rgb(248, 81, 73),
                dim: Color::Rgb(120, 130, 145),
                gold: Color::Rgb(210, 168, 60),
                panel: Color::Rgb(70, 78, 92),
                select_bg: Color::Rgb(30, 60, 90),
            }
        } else if i == 1 {
            Theme {
                accent: Color::Rgb(9, 105, 218),
                on_accent: Color::White,
                good: Color::Rgb(26, 127, 55),
                bad: Color::Rgb(207, 34, 46),
                dim: Color::Rgb(101, 109, 118),
                gold: Color::Rgb(154, 103, 0),
                panel: Color::Rgb(175, 184, 193),
                select_bg: Color::Rgb(218, 233, 250),
            }
        } else if i == 2 {
            Theme {
                accent: Color::Rgb(131, 165, 152),
                on_accent: Color::Rgb(40, 40, 40),
                good: Color::Rgb(184, 187, 38),
                bad: Color::Rgb(251, 73, 52),
                dim: Color::Rgb(146, 131, 116),
                gold: Color::Rgb(250, 189, 47),
                panel: Color::Rgb(80, 73, 69),
                select_bg: Color::Rgb(60, 56, 54),
            }
        } else {
            Theme {
                accent: Color::White,
                on_accent: Color::Black,
                good: Color::Gray,
                bad: Color::White,
                dim: Color::DarkGray,
                gold: Color::White,
                panel: Color::DarkGray,
                select_bg: Color::DarkGray,
            }
        }
    }

    /// The colour of a tone; a plain text has none.
    pub open spec fn gives(self, tone: Tone) -> Option<Color> {
        match tone {
            Tone::Plain => None,
            Tone::Accent => Some(self.accent),
            Tone::Good => Some(self.good),
            Tone::Bad => Some(self.bad),
            Tone::Dim => Some(self.dim),
            Tone::Gold => Some(self.gold),
        }
    }

    pub fn color(&self, tone: Tone) -> (r: Option<Color>)
        ensures
            r == self.gives(tone),
    {
        match tone {
            Tone::Plain => None,
            Tone::Accent => Some(self.accent),
            Tone::Good => Some(self.good),
            Tone::Bad => Some(self.bad),
            Tone::Dim => Some(self.dim),
            Tone::Gold => Some(self.gold),
        }
    }
}

} // verus!
