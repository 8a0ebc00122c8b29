//! The colours and styles in which messages are shown.

use crate::db_output::Tone;
use vstd::prelude::*;

verus! {

/// The colour specification of the `termcolor` crate. Its fields are
/// private; what one holds is spoken of through `style_of`.
#[verifier::external_type_specification]
#[verifier::external_body]
pub struct ExColorSpec(termcolor::ColorSpec);

/// One of the eight colours that every terminal has.
#[derive(Debug, PartialEq, Eq, Clone, Copy)]
pub enum Hue {
    Black,
    Blue,
    Green,
    Red,
    Cyan,
    Magenta,
    Yellow,
    White,
}

/// What a colour specification holds, as far as messages use it.
pub struct Style {
    /// The colour of the text, where it is one of the eight.
    pub fg: Option<Hue>,
    /// The colour behind the text, where it is one of the eight.
    pub bg: Option<Hue>,
    pub bold: bool,
    pub italic: bool,
    pub dimmed: bool,
    pub underline: bool,
    pub intense: bool,
}

/// The style without colours and with no attribute set.
pub open spec fn plain_style() -> Style {
    Style {
        fg: None,
        bg: None,
        bold: false,
        italic: false,
        dimmed: false,
        underline: false,
        intense: false,
    }
}

/// The colours and attributes that `spec` holds.
pub uninterp spec fn style_of(spec: termcolor::ColorSpec) -> Style;

/// `termcolor::ColorSpec::new`: a specification without colours and with
/// no attribute set.
#[verifier::external_body]
fn new_color_spec() -> (spec: termcolor::ColorSpec)
    ensures
        style_of(spec) == plain_style(),
{
    termcolor::ColorSpec::new()
}

/// `termcolor::ColorSpec::set_bold`: sets whether the text is bold and
/// leaves the rest as it is.
#[verifier::external_body]
fn set_bold(spec: &mut termcolor::ColorSpec, yes: bool)
    ensures
        style_of(*final(spec)) == (Style { bold: yes, ..style_of(*old(spec)) }),
{
    spec.set_bold(yes);
}

/// `termcolor::ColorSpec::set_italic`: sets whether the text is italic and
/// leaves the rest as it is.
#[verifier::external_body]
fn set_italic(spec: &mut termcolor::ColorSpec, yes: bool)
    ensures
        style_of(*final(spec)) == (Style { italic: yes, ..style_of(*old(spec)) }),
{
    spec.set_italic(yes);
}

/// `termcolor::ColorSpec::set_dimmed`: sets whether the text is dimmed and
/// leaves the rest as it is.
#[verifier::external_body]
fn set_dimmed(spec: &mut termcolor::ColorSpec, yes: bool)
    ensures
        style_of(*final(spec)) == (Style { dimmed: yes, ..style_of(*old(spec)) }),
{
    spec.set_dimmed(yes);
}

/// `termcolor::ColorSpec::set_underline`: sets whether the text is
/// underlined and leaves the rest as it is.
#[verifier::external_body]
fn set_underline(spec: &mut termcolor::ColorSpec, yes: bool)
    ensures
        style_of(*final(spec)) == (Style { underline: yes, ..style_of(*old(spec)) }),
{
    spec.set_underline(yes);
}

/// `termcolor::ColorSpec::set_intense`: sets whether the colours are
/// intense and leaves the rest as it is.
#[verifier::external_body]
fn set_intense(spec: &mut termcolor::ColorSpec, yes: bool)
    ensures
        style_of(*final(spec)) == (Style { intense: yes, ..style_of(*old(spec)) }),
{
    spec.set_intense(yes);
}

/// `termcolor::ColorSpec::set_fg`, with one of the eight colours: sets the
/// colour of the text and leaves the rest as it is.
#[verifier::external_body]
fn set_fg(spec: &mut termcolor::ColorSpec, hue: Hue)
    ensures
        style_of(*final(spec)) == (Style { fg: Some(hue), ..style_of(*old(spec)) }),
{
    spec.set_fg(Some(match hue {
        Hue::Black => termcolor::Color::Black,
        Hue::Blue => termcolor::Color::Blue,
        Hue::Green => termcolor::Color::Green,
        Hue::Red => termcolor::Color::Red,
        Hue::Cyan => termcolor::Color::Cyan,
        Hue::Magenta => termcolor::Color::Magenta,
        Hue::Yellow => termcolor::Color::Yellow,
        Hue::White => termcolor::Color::White,
    }));
}

/// `termcolor::ColorSpec::set_bg`, with one of the eight colours: sets the
/// colour behind the text and leaves the rest as it is.
#[verifier::external_body]
fn set_bg(spec: &mut termcolor::ColorSpec, hue: Hue)
    ensures
        style_of(*final(spec)) == (Style { bg: Some(hue), ..style_of(*old(spec)) }),
{
    spec.set_bg(Some(match hue {
        Hue::Black => termcolor::Color::Black,
        Hue::Blue => termcolor::Color::Blue,
        Hue::Green => termcolor::Color::Green,
        Hue::Red => termcolor::Color::Red,
        Hue::Cyan => termcolor::Color::Cyan,
        Hue::Magenta => termcolor::Color::Magenta,
        Hue::Yellow => termcolor::Color::Yellow,
        Hue::White => termcolor::Color::White,
    }));
}

/// A word for a colour or a style of a message.
#[allow(non_camel_case_types)]
#[derive(Debug, PartialEq, Eq, Clone, Copy)]
pub enum ColoringOption {
    bold,
    italic,
    dimmed,
    underline,
    intense,
    black,
    blue,
    green,
    red,
    cyan,
    magenta,
    yellow,
    white,
    on_black,
    on_blue,
    on_green,
    on_red,
    on_cyan,
    on_magenta,
    on_yellow,
    on_white,
}

/// `style` with `option` applied. The words for styles switch the style
/// on. The words for colours from black to magenta colour the text; yellow
/// and white, like the words that begin with `on_`, colour what is behind
/// the text.
pub open spec fn with_option(style: Style, option: ColoringOption) -> Style {
    match option {
        ColoringOption::bold => Style { bold: true, ..style },
        ColoringOption::italic => Style { italic: true, ..style },
        ColoringOption::dimmed => Style { dimmed: true, ..style },
        ColoringOption::underline => Style { underline: true, ..style },
        ColoringOption::intense => Style { intense: true, ..style },
        ColoringOption::black => Style { fg: Some(Hue::Black), ..style },
        ColoringOption::blue => Style { fg: Some(Hue::Blue), ..style },
        ColoringOption::green => Style { fg: Some(Hue::Green), ..style },
        ColoringOption::red => Style { fg: Some(Hue::Red), ..style },
        ColoringOption::cyan => Style { fg: Some(Hue::Cyan), ..style },
        ColoringOption::magenta => Style { fg: Some(Hue::Magenta), ..style },
        ColoringOption::yellow => Style { bg: Some(Hue::Yellow), ..style },
        ColoringOption::white => Style { bg: Some(Hue::White), ..style },
        ColoringOption::on_black => Style { bg: Some(Hue::Black), ..style },
        ColoringOption::on_blue => Style { bg: Some(Hue::Blue), ..style },
        ColoringOption::on_green => Style { bg: Some(Hue::Green), ..style },
        ColoringOption::on_red => Style { bg: Some(Hue::Red), ..style },
        ColoringOption::on_cyan => Style { bg: Some(Hue::Cyan), ..style },
        ColoringOption::on_magenta => Style { bg: Some(Hue::Magenta), ..style },
        ColoringOption::on_yellow => Style { bg: Some(Hue::Yellow), ..style },
        ColoringOption::on_white => Style { bg: Some(Hue::White), ..style },
    }
}

/// Applies `option` to `spec`, and hands `spec` back for the next option.
pub fn add_to_color_spec(spec: &mut termcolor::ColorSpec, option: ColoringOption) -> (ret:
    &mut termcolor::ColorSpec)
    ensures
        style_of(*ret) == with_option(style_of(*old(spec)), option),
        *final(spec) == *final(ret),
{
    match option {
        ColoringOption::bold => set_bold(spec, true),
        ColoringOption::italic => set_italic(spec, true),
        ColoringOption::dimmed => set_dimmed(spec, true),
        ColoringOption::underline => set_underline(spec, true),
        ColoringOption::intense => set_intense(spec, true),
        ColoringOption::black => set_fg(spec, Hue::Black),
        ColoringOption::blue => set_fg(spec, Hue::Blue),
        ColoringOption::green => set_fg(spec, Hue::Green),
        ColoringOption::red => set_fg(spec, Hue::Red),
        ColoringOption::cyan => set_fg(spec, Hue::Cyan),
        ColoringOption::magenta => set_fg(spec, Hue::Magenta),
        ColoringOption::yellow => set_bg(spec, Hue::Yellow),
        ColoringOption::white => set_bg(spec, Hue::White),
        ColoringOption::on_black => set_bg(spec, Hue::Black),
        ColoringOption::on_blue => set_bg(spec, Hue::Blue),
        ColoringOption::on_green => set_bg(spec, Hue::Green),
        ColoringOption::on_red => set_bg(spec, Hue::Red),
        ColoringOption::on_cyan => set_bg(spec, Hue::Cyan),
        ColoringOption::on_magenta => set_bg(spec, Hue::Magenta),
        ColoringOption::on_yellow => set_bg(spec, Hue::Yellow),
        ColoringOption::on_white => set_bg(spec, Hue::White),
    }
    spec
}

/// The style in which a piece of a message with `tone` is shown.
pub open spec fn tone_style(tone: Tone) -> Style {
    match tone {
        Tone::Plain => plain_style(),
        Tone::Strong => Style { bold: true, ..plain_style() },
        Tone::Title => Style { fg: Some(Hue::Blue), ..plain_style() },
        Tone::Heading => Style { bold: true, fg: Some(Hue::Blue), ..plain_style() },
        Tone::Faint => Style { dimmed: true, ..plain_style() },
        Tone::Error => Style { fg: Some(Hue::Red), ..plain_style() },
        Tone::Good => Style { fg: Some(Hue::Green), ..plain_style() },
        Tone::Bad => Style { bold: true, fg: Some(Hue::Red), ..plain_style() },
        Tone::Removed => Style { fg: Some(Hue::Magenta), ..plain_style() },
        Tone::Added => Style { fg: Some(Hue::Yellow), ..plain_style() },
    }
}

/// The colour specification for a piece of a message with `tone`.
pub fn color_spec_for(tone: Tone) -> (spec: termcolor::ColorSpec)
    ensures
        style_of(spec) == tone_style(tone),
{
    let mut spec = new_color_spec();
    match tone {
        Tone::Plain => {},
        Tone::Strong => {
            add_to_color_spec(&mut spec, ColoringOption::bold);
        },
        Tone::Title => {
            add_to_color_spec(&mut spec, ColoringOption::blue);
        },
        Tone::Heading => {
            add_to_color_spec(&mut spec, ColoringOption::bold);
            add_to_color_spec(&mut spec, ColoringOption::blue);
        },
        Tone::Faint => {
            add_to_color_spec(&mut spec, ColoringOption::dimmed);
        },
        Tone::Error => {
            add_to_color_spec(&mut spec, ColoringOption::red);
        },
        Tone::Good => {
            add_to_color_spec(&mut spec, ColoringOption::green);
        },
        Tone::Bad => {
            add_to_color_spec(&mut spec, ColoringOption::bold);
            add_to_color_spec(&mut spec, ColoringOption::red);
        },
        Tone::Removed => {
            set_fg(&mut spec, Hue::Magenta);
        },
        Tone::Added => {
            set_fg(&mut spec, Hue::Yellow);
        },
    }
    spec
}

} // verus!
