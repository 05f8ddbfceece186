use ansi_to_tui::Error;
use ansi_to_tui::ansi::ansi_to_text;
use ansi_to_tui::style::{Color, Modifier, Style};
use ansi_to_tui::text::{Document, Line, Run};

fn default_style() -> Style {
    Style { fg: Color::Unset, bg: Color::Unset, modifiers: Modifier::empty() }
}

fn fg(color: Color) -> Style {
    Style { fg: color, bg: Color::Unset, modifiers: Modifier::empty() }
}

fn texts_of(doc: &Document) -> Vec<Vec<(String, Style)>> {
    doc.lines
        .iter()
        .map(|l| l.runs.iter().map(|r| (r.text.clone(), r.style)).collect())
        .collect()
}

#[test]
fn plain_text_two_lines() {
    let doc = ansi_to_text(b"hello\nworld").unwrap();
    assert_eq!(
        texts_of(&doc),
        vec![
            vec![("hello".to_string(), default_style())],
            vec![("world".to_string(), default_style())],
        ]
    );
}

#[test]
fn plain_text_trailing_newline_adds_no_line() {
    let doc = ansi_to_text(b"abc\n").unwrap();
    assert_eq!(texts_of(&doc), vec![vec![("abc".to_string(), default_style())]]);
}

#[test]
fn empty_input_yields_empty_document() {
    let doc = ansi_to_text(b"").unwrap();
    assert_eq!(doc.lines.len(), 0);
}

#[test]
fn style_application_red_foreground() {
    let doc = ansi_to_text(b"\x1b[31mAAA").unwrap();
    assert_eq!(texts_of(&doc), vec![vec![("AAA".to_string(), fg(Color::Red))]]);
}

#[test]
fn reset_then_reapply_merges_into_one_run() {
    let doc = ansi_to_text(b"\x1b[31mHELLO\x1b[0m\x1b[31mTEST").unwrap();
    assert_eq!(texts_of(&doc), vec![vec![("HELLOTEST".to_string(), fg(Color::Red))]]);
}

#[test]
fn reset_then_new_color_splits_runs() {
    let doc = ansi_to_text(b"\x1b[31mHELLO\x1b[0m\x1b[32mTEST").unwrap();
    assert_eq!(
        texts_of(&doc),
        vec![vec![
            ("HELLO".to_string(), fg(Color::Red)),
            ("TEST".to_string(), fg(Color::Green)),
        ]]
    );
}

#[test]
fn line_count_keeps_empty_lines() {
    let doc = ansi_to_text(b"A\n\nB").unwrap();
    assert_eq!(
        texts_of(&doc),
        vec![
            vec![("A".to_string(), default_style())],
            vec![],
            vec![("B".to_string(), default_style())],
        ]
    );
}

#[test]
fn malformed_sequence_is_discarded() {
    let doc = ansi_to_text(b"\x1b[31qAAA").unwrap();
    assert_eq!(texts_of(&doc), vec![vec![("AAA".to_string(), default_style())]]);
}

#[test]
fn malformed_sequence_keeps_earlier_style() {
    let doc = ansi_to_text(b"\x1b[31mAB\x1b[9999999999999999999qCD").unwrap();
    assert_eq!(texts_of(&doc), vec![vec![("ABCD".to_string(), fg(Color::Red))]]);
}

#[test]
fn conversion_is_pure() {
    let input: Vec<u8> = b"\x1b[31mHELLO\x1b[0m\x1b[32mTEST\nplain".to_vec();
    let a = ansi_to_text(&input).unwrap();
    let b = ansi_to_text(&input).unwrap();
    assert_eq!(a, b);
}

#[test]
fn lone_continuation_byte_is_a_decode_error() {
    assert_eq!(ansi_to_text(&[0x80]), Err(Error::Decode));
}

#[test]
fn invalid_utf8_in_text_run_is_a_decode_error() {
    assert_eq!(ansi_to_text(b"AB\x80CD"), Err(Error::Decode));
}

#[test]
fn invalid_utf8_before_newline_is_a_decode_error() {
    assert_eq!(ansi_to_text(b"AB\xc3\nCD"), Err(Error::Decode));
}

#[test]
fn multibyte_utf8_text_decodes_to_chars() {
    let doc = ansi_to_text("héllo".as_bytes()).unwrap();
    assert_eq!(texts_of(&doc), vec![vec![("héllo".to_string(), default_style())]]);
    assert_eq!(doc.lines[0].runs[0].text.chars().count(), 5);
}

#[test]
fn parameter_overflow_is_a_parse_error() {
    let mut input: Vec<u8> = b"\x1b[".to_vec();
    input.extend_from_slice(b"99999999999999999999999999999");
    input.push(b'm');
    assert_eq!(ansi_to_text(&input), Err(Error::Parse));
}

#[test]
fn lone_escape_swallows_next_byte() {
    let doc = ansi_to_text(b"\x1bXAAA").unwrap();
    assert_eq!(texts_of(&doc), vec![vec![("AAA".to_string(), default_style())]]);
}

#[test]
fn escape_without_introducer_still_parses_parameters() {
    let doc = ansi_to_text(b"\x1b31mA").unwrap();
    assert_eq!(texts_of(&doc), vec![vec![("A".to_string(), fg(Color::Red))]]);
}

#[test]
fn newline_inside_escape_sequence_splits_the_line() {
    let doc = ansi_to_text(b"A\x1b[3\n1mB").unwrap();
    assert_eq!(
        texts_of(&doc),
        vec![
            vec![("A".to_string(), default_style())],
            vec![("B".to_string(), fg(Color::Red))],
        ]
    );
}

#[test]
fn style_survives_across_lines() {
    let doc = ansi_to_text(b"\x1b[31mAA\nBB").unwrap();
    assert_eq!(
        texts_of(&doc),
        vec![
            vec![("AA".to_string(), fg(Color::Red))],
            vec![("BB".to_string(), fg(Color::Red))],
        ]
    );
}

#[test]
fn stream_ending_inside_a_sequence_drops_it() {
    let doc = ansi_to_text(b"AB\x1b[3").unwrap();
    assert_eq!(texts_of(&doc), vec![vec![("AB".to_string(), default_style())]]);
}

#[test]
fn run_finalized_at_stream_end_takes_the_active_style() {
    let doc = ansi_to_text(b"\x1b[31mABC\x1b[0m").unwrap();
    assert_eq!(texts_of(&doc), vec![vec![("ABC".to_string(), default_style())]]);
}

#[test]
fn conversion_output_equals_hand_built_document() {
    let expected = Document::from_lines(vec![
        Line::from_runs(vec![Run::styled("A".to_string(), default_style())]),
        Line::empty(),
    ]);
    assert_eq!(ansi_to_text(b"A\n\n").unwrap(), expected);
}

#[test]
fn run_finalized_at_newline_takes_the_active_style() {
    // the text was typed before the color changed, but the run is only
    // finalized at the newline, under the then-active style
    let doc = ansi_to_text(b"A\x1b[31m\nB").unwrap();
    assert_eq!(
        texts_of(&doc),
        vec![
            vec![("A".to_string(), fg(Color::Red))],
            vec![("B".to_string(), fg(Color::Red))],
        ]
    );
}
