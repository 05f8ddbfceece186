use ansi_to_tui::Error;
use ansi_to_tui::ansi::ansi_to_text;
use ansi_to_tui::style::{Color, Modifier, Style};

fn only_style(input: &[u8]) -> Style {
    let doc = ansi_to_text(input).unwrap();
    assert_eq!(doc.lines.len(), 1);
    assert_eq!(doc.lines[0].runs.len(), 1);
    doc.lines[0].runs[0].style
}

#[test]
fn basic_foreground_codes() {
    assert_eq!(only_style(b"\x1b[30mX").fg, Color::Black);
    assert_eq!(only_style(b"\x1b[33mX").fg, Color::Yellow);
    assert_eq!(only_style(b"\x1b[36mX").fg, Color::Cyan);
    assert_eq!(only_style(b"\x1b[37mX").fg, Color::Gray);
}

#[test]
fn basic_background_codes() {
    assert_eq!(only_style(b"\x1b[41mX").bg, Color::Red);
    assert_eq!(only_style(b"\x1b[44mX").bg, Color::Blue);
    assert_eq!(only_style(b"\x1b[47mX").bg, Color::Gray);
}

#[test]
fn bright_color_codes() {
    assert_eq!(only_style(b"\x1b[90mX").fg, Color::DarkGray);
    assert_eq!(only_style(b"\x1b[95mX").fg, Color::LightMagenta);
    assert_eq!(only_style(b"\x1b[97mX").fg, Color::White);
    assert_eq!(only_style(b"\x1b[100mX").bg, Color::DarkGray);
    assert_eq!(only_style(b"\x1b[107mX").bg, Color::White);
}

#[test]
fn default_color_codes() {
    assert_eq!(only_style(b"\x1b[31;39mX").fg, Color::Reset);
    assert_eq!(only_style(b"\x1b[41;49mX").bg, Color::Reset);
}

#[test]
fn indexed_color() {
    assert_eq!(only_style(b"\x1b[38;5;196mX").fg, Color::Indexed(196));
    assert_eq!(only_style(b"\x1b[48;5;21mX").bg, Color::Indexed(21));
}

#[test]
fn truecolor() {
    assert_eq!(only_style(b"\x1b[38;2;10;20;30mX").fg, Color::Rgb(10, 20, 30));
    assert_eq!(only_style(b"\x1b[48;2;255;0;128mX").bg, Color::Rgb(255, 0, 128));
}

#[test]
fn extended_color_components_wrap_modulo_256() {
    assert_eq!(only_style(b"\x1b[38;5;300mX").fg, Color::Indexed(44));
}

#[test]
fn extended_color_missing_parameters_is_a_parse_error() {
    assert_eq!(ansi_to_text(b"\x1b[38mX"), Err(Error::Parse));
    assert_eq!(ansi_to_text(b"\x1b[38;5mX"), Err(Error::Parse));
    assert_eq!(ansi_to_text(b"\x1b[38;2;1;2mX"), Err(Error::Parse));
    assert_eq!(ansi_to_text(b"\x1b[48;9mX"), Err(Error::Parse));
}

#[test]
fn modifiers_accumulate() {
    let style = only_style(b"\x1b[1m\x1b[3;4mX");
    assert!(style.modifiers.bold);
    assert!(style.modifiers.italic);
    assert!(style.modifiers.underlined);
    assert!(!style.modifiers.dim);
}

#[test]
fn modifier_disable_codes() {
    let style = only_style(b"\x1b[1;2;4m\x1b[22mX");
    assert!(!style.modifiers.bold);
    assert!(!style.modifiers.dim);
    assert!(style.modifiers.underlined);
    let style = only_style(b"\x1b[3m\x1b[23mX");
    assert_eq!(style.modifiers, Modifier::empty());
}

#[test]
fn disable_within_one_sequence() {
    let style = only_style(b"\x1b[1;22;4mX");
    assert!(!style.modifiers.bold);
    assert!(style.modifiers.underlined);
}

#[test]
fn reset_clears_everything() {
    let style = only_style(b"\x1b[1;31;41m\x1b[0mX");
    assert_eq!(style, Style::default());
}

#[test]
fn reset_inside_sequence_discards_earlier_codes() {
    let style = only_style(b"\x1b[31;0;32mX");
    assert_eq!(style.fg, Color::Green);
    assert_eq!(style.bg, Color::Unset);
}

#[test]
fn unknown_codes_are_ignored() {
    let style = only_style(b"\x1b[31;999mX");
    assert_eq!(style.fg, Color::Red);
    assert_eq!(style, only_style(b"\x1b[31mX"));
}

#[test]
fn empty_parameter_reads_as_zero() {
    // `ESC[m` is `ESC[0m`: a reset
    let style = only_style(b"\x1b[31m\x1b[mX");
    assert_eq!(style, Style::default());
    // a leading `;` contributes a zero parameter before the color
    let style = only_style(b"\x1b[;31mX");
    assert_eq!(style.fg, Color::Red);
}

#[test]
fn later_codes_override_earlier_ones() {
    assert_eq!(only_style(b"\x1b[31;32;34mX").fg, Color::Blue);
}
