use iotactl::sanitize::SanitizedText;
use iotactl::style::{Color, Style};

#[test]
fn expands_tabs_to_next_stop() {
    let sanitized = SanitizedText::from_text("a\tb", Style::new());
    assert_eq!(sanitized.plain(), "a   b");
}

#[test]
fn escapes_c0_controls_with_caret_notation() {
    let sanitized = SanitizedText::from_text("a\x01b\x1bc\x7fd", Style::new());
    assert_eq!(sanitized.plain(), "a^Ab^[c^?d");
}

#[test]
fn escapes_c1_controls_with_hex_notation() {
    let sanitized = SanitizedText::from_text("a\u{80}b", Style::new());
    assert_eq!(sanitized.plain(), "a<80>b");
}

#[test]
fn splits_multiline_text_on_newline() {
    let sanitized = SanitizedText::from_text("one\ntwo", Style::new());
    assert_eq!(sanitized.line_count(), 2);
    assert_eq!(sanitized.plain(), "one\ntwo");
}

#[test]
fn label_escapes_embedded_newline_instead_of_breaking_line() {
    let line = SanitizedText::from_label("weird\nname", Style::new());
    let text: String = line.spans.iter().map(|s| s.content.as_str()).collect();
    assert_eq!(text, "weird^Jname");
}

#[test]
fn escape_spans_are_dimmed() {
    let sanitized = SanitizedText::from_text("a\x01b", Style::new());
    let escape_span = sanitized.lines[0]
        .spans
        .iter()
        .find(|s| s.content.as_str() == "^A")
        .expect("expected an escaped span for \\x01");
    assert_eq!(escape_span.style.fg, Some(Color::DarkGray));
}

#[test]
fn sanitized_text_holds_no_control_characters() {
    let sanitized = SanitizedText::from_text("x\x00y\r\n\u{9b}z\t", Style::new());
    for line in &sanitized.lines {
        for span in &line.spans {
            assert!(span.content.chars().all(|c| !c.is_control()), "{:?}", span.content);
        }
    }
}

#[test]
fn clean_text_passes_through_as_one_span_per_line() {
    let style = Style::new().fg(Color::Green);
    let sanitized = SanitizedText::from_text("plain words, ünïcode ✓\nsecond line", style);
    assert_eq!(sanitized.lines.len(), 2);
    assert_eq!(sanitized.lines[0].spans.len(), 1);
    assert_eq!(sanitized.lines[0].spans[0].content, "plain words, ünïcode ✓");
    assert_eq!(sanitized.lines[0].spans[0].style, style);
    assert_eq!(sanitized.lines[1].spans[0].content, "second line");
}
