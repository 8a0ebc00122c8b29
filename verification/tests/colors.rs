use sql_doctester::colors::{add_to_color_spec, color_spec_for, ColoringOption};
use sql_doctester::db_output::Tone;
use termcolor::{Color, ColorSpec};

#[test]
fn style_words_switch_the_style_on() {
    let mut spec = ColorSpec::new();
    add_to_color_spec(&mut spec, ColoringOption::bold);
    assert!(spec.bold() && !spec.italic() && !spec.dimmed());
    assert_eq!(spec.fg(), None);
    assert_eq!(spec.bg(), None);
    add_to_color_spec(&mut spec, ColoringOption::italic);
    add_to_color_spec(&mut spec, ColoringOption::dimmed);
    add_to_color_spec(&mut spec, ColoringOption::underline);
    add_to_color_spec(&mut spec, ColoringOption::intense);
    assert!(spec.bold() && spec.italic() && spec.dimmed() && spec.underline() && spec.intense());
}

#[test]
fn colour_words_colour_the_text() {
    let cases = [
        (ColoringOption::black, Color::Black),
        (ColoringOption::blue, Color::Blue),
        (ColoringOption::green, Color::Green),
        (ColoringOption::red, Color::Red),
        (ColoringOption::cyan, Color::Cyan),
        (ColoringOption::magenta, Color::Magenta),
    ];
    for (option, color) in cases {
        let mut spec = ColorSpec::new();
        add_to_color_spec(&mut spec, option);
        assert_eq!(spec.fg(), Some(&color));
        assert_eq!(spec.bg(), None);
        assert!(!spec.bold());
    }
}

#[test]
fn background_words_colour_what_is_behind_the_text() {
    let cases = [
        (ColoringOption::yellow, Color::Yellow),
        (ColoringOption::white, Color::White),
        (ColoringOption::on_black, Color::Black),
        (ColoringOption::on_blue, Color::Blue),
        (ColoringOption::on_green, Color::Green),
        (ColoringOption::on_red, Color::Red),
        (ColoringOption::on_cyan, Color::Cyan),
        (ColoringOption::on_magenta, Color::Magenta),
        (ColoringOption::on_yellow, Color::Yellow),
        (ColoringOption::on_white, Color::White),
    ];
    for (option, color) in cases {
        let mut spec = ColorSpec::new();
        add_to_color_spec(&mut spec, option);
        assert_eq!(spec.bg(), Some(&color));
        assert_eq!(spec.fg(), None);
    }
}

#[test]
fn options_can_be_chained() {
    let mut spec = ColorSpec::new();
    add_to_color_spec(add_to_color_spec(&mut spec, ColoringOption::bold), ColoringOption::red);
    assert!(spec.bold());
    assert_eq!(spec.fg(), Some(&Color::Red));
    add_to_color_spec(&mut spec, ColoringOption::blue);
    assert_eq!(spec.fg(), Some(&Color::Blue));
    assert!(spec.bold());
}

#[test]
fn tones_have_their_styles() {
    assert!(color_spec_for(Tone::Plain).is_none());
    let strong = color_spec_for(Tone::Strong);
    assert!(strong.bold());
    assert_eq!(strong.fg(), None);
    assert_eq!(color_spec_for(Tone::Title).fg(), Some(&Color::Blue));
    assert!(!color_spec_for(Tone::Title).bold());
    let heading = color_spec_for(Tone::Heading);
    assert!(heading.bold());
    assert_eq!(heading.fg(), Some(&Color::Blue));
    assert!(color_spec_for(Tone::Faint).dimmed());
    assert_eq!(color_spec_for(Tone::Error).fg(), Some(&Color::Red));
    assert_eq!(color_spec_for(Tone::Good).fg(), Some(&Color::Green));
    let bad = color_spec_for(Tone::Bad);
    assert!(bad.bold());
    assert_eq!(bad.fg(), Some(&Color::Red));
    assert_eq!(color_spec_for(Tone::Removed).fg(), Some(&Color::Magenta));
    let added = color_spec_for(Tone::Added);
    assert_eq!(added.fg(), Some(&Color::Yellow));
    assert_eq!(added.bg(), None);
}
