use iotactl::highlight::{Registry, build_registry, highlight, highlighted_text, language_for, style_for};
use iotactl::style::{Color, Line, Style};

fn reg() -> Registry {
    build_registry()
}

#[test]
fn markdown_inline_emphasis_is_highlighted() {
    let path = "sample.md";
    let text = "This has *italic* and **bold** text.\n";
    let lines = highlight(&reg(), path, text, false).unwrap();
    let spans = &lines[0].spans;
    let styled_texts: Vec<(&str, Style)> =
        spans.iter().map(|s| (s.content.as_str(), s.style)).collect();

    // The `*`/`**` delimiters are their own `@punctuation.special` spans
    // (dim, split out from the emphasis/strong text) rather than part of
    // the italic/bold span, so `highlight()`'s `hide_markers` mode can
    // drop just the delimiters — see MARKDOWN_INLINE_HIGHLIGHTS_QUERY's
    // doc comment.
    assert!(
        styled_texts
            .iter()
            .any(|(t, s)| *t == "italic" && s.italic),
        "expected an italic span for italic, got {styled_texts:?}"
    );
    assert!(
        styled_texts
            .iter()
            .any(|(t, s)| *t == "bold" && s.bold),
        "expected a bold span for bold, got {styled_texts:?}"
    );
    // `**` is scanned as two single-`*` `emphasis_delimiter` tokens
    // rather than one two-char token, so italic contributes 2 dim `*`
    // spans and bold contributes 4.
    assert_eq!(
        styled_texts
            .iter()
            .filter(|(t, s)| *t == "*" && s.fg == Some(Color::DarkGray))
            .count(),
        6,
        "expected all six `*` delimiter chars dim, got {styled_texts:?}"
    );
}

#[test]
fn fenced_html_block_is_highlighted() {
    let path = "sample.md";
    let text = "```html\n<div class=\"foo\">bar</div>\n```\n";
    let lines = highlight(&reg(), path, text, false).unwrap();
    let spans = &lines[1].spans;
    let styled_texts: Vec<(&str, Style)> =
        spans.iter().map(|s| (s.content.as_str(), s.style)).collect();

    assert!(
        styled_texts
            .iter()
            .filter(|(t, s)| *t == "div" && s.fg == Some(Color::Cyan))
            .count()
            == 2,
        "expected both `div` tag names highlighted as cyan, got {styled_texts:?}"
    );
    assert!(
        styled_texts
            .iter()
            .any(|(t, s)| *t == "class" && s.fg == Some(Color::Yellow)),
        "expected `class` attribute highlighted as yellow, got {styled_texts:?}"
    );
}

#[test]
fn fenced_json_block_is_highlighted() {
    let path = "sample.md";
    let text = "```json\n{\"foo\": \"value\", \"bar\": 42, \"baz\": true}\n```\n";
    let lines = highlight(&reg(), path, text, false).unwrap();
    let spans = &lines[1].spans;
    let styled_texts: Vec<(&str, Style)> =
        spans.iter().map(|s| (s.content.as_str(), s.style)).collect();

    assert!(
        styled_texts
            .iter()
            .any(|(t, s)| *t == "42" && s.fg == Some(Color::Yellow)),
        "expected `42` highlighted as a number, got {styled_texts:?}"
    );
    assert!(
        styled_texts
            .iter()
            .any(|(t, s)| *t == "true" && s.fg == Some(Color::LightRed)),
        "expected `true` highlighted as a builtin constant, got {styled_texts:?}"
    );
    assert!(
        styled_texts.iter().any(|(t, s)| *t == "{" && *s == Style::new()),
        "expected unstyled `{{` punctuation (no green code-block wash), got {styled_texts:?}"
    );
    assert!(
        styled_texts
            .iter()
            .any(|(t, s)| *t == "\"foo\"" && s.fg == Some(Color::White)),
        "expected key `\"foo\"` highlighted distinctly (white), got {styled_texts:?}"
    );
    assert!(
        styled_texts
            .iter()
            .any(|(t, s)| *t == "\"value\"" && s.fg == Some(Color::Green)),
        "expected string value `\"value\"` highlighted as a string (green), got {styled_texts:?}"
    );

    // The fence delimiter and info string are `@punctuation.special`
    // (dim, like every other markdown marker) rather than tinted by the
    // fence's own language, so they don't fight visually with the
    // fenced content's real highlighting and so `highlight()`'s
    // `hide_markers` mode can hide them — see
    // MARKDOWN_BLOCK_HIGHLIGHTS_QUERY's doc comment.
    let opening_fence: Vec<(&str, Style)> = lines[0]
        .spans
        .iter()
        .map(|s| (s.content.as_str(), s.style))
        .collect();
    assert!(
        opening_fence
            .iter()
            .all(|(_, s)| s.fg == Some(Color::DarkGray)),
        "expected the whole opening fence line (```json) to be dim, got {opening_fence:?}"
    );
    let closing_fence: Vec<(&str, Style)> = lines[2]
        .spans
        .iter()
        .map(|s| (s.content.as_str(), s.style))
        .collect();
    assert!(
        closing_fence
            .iter()
            .all(|(_, s)| s.fg == Some(Color::DarkGray)),
        "expected the closing fence line (```) to be dim, got {closing_fence:?}"
    );
}

#[test]
fn fenced_python_keyword_does_not_leak_across_lines() {
    // Regression test: the `def` keyword's highlight span used to leak
    // all the way to the end of the fenced block (covering `():`, the
    // indent, and the space after `return`) instead of ending right
    // after `def`. See MARKDOWN_BLOCK_HIGHLIGHTS_QUERY's doc comment.
    let path = "sample.md";
    let text = "```python\ndef foo():\n    return 42\n```\n";
    let lines = highlight(&reg(), path, text, false).unwrap();
    let spans = &lines[1].spans;
    let styled_texts: Vec<(&str, Style)> =
        spans.iter().map(|s| (s.content.as_str(), s.style)).collect();

    assert!(
        styled_texts
            .iter()
            .any(|(t, s)| *t == "def" && s.fg == Some(Color::Magenta)),
        "expected `def` highlighted as a keyword, got {styled_texts:?}"
    );
    assert!(
        !styled_texts
            .iter()
            .any(|(t, s)| t.contains("():") && s.fg == Some(Color::Magenta)),
        "keyword highlight leaked past `def` onto `():`, got {styled_texts:?}"
    );
    assert!(
        styled_texts
            .iter()
            .any(|(t, s)| *t == "foo" && s.fg == Some(Color::Blue)),
        "expected `foo` highlighted as a function name, got {styled_texts:?}"
    );
}

#[test]
fn plain_rust_file_is_highlighted() {
    // Every other test drives highlighting through markdown's fenced-code
    // injection. This one exercises the plain, non-markdown path
    // (opening a `.rs` file directly) so a break in the base per-language
    // registry/query wiring can't hide behind markdown-only coverage.
    let path = "sample.rs";
    let text = "fn main() {\n    let x = 42;\n}\n";
    let lines = highlight(&reg(), path, text, false).unwrap();
    let styled_texts: Vec<(&str, Style)> = lines
        .iter()
        .flat_map(|l| l.spans.iter())
        .map(|s| (s.content.as_str(), s.style))
        .collect();

    assert!(
        styled_texts
            .iter()
            .any(|(t, s)| *t == "fn" && s.fg == Some(Color::Magenta)),
        "expected `fn` highlighted as a keyword, got {styled_texts:?}"
    );
    assert!(
        styled_texts
            .iter()
            .any(|(t, s)| *t == "main" && s.fg == Some(Color::Blue)),
        "expected `main` highlighted as a function name, got {styled_texts:?}"
    );
    assert!(
        // tree-sitter-rust captures integer literals as
        // `@constant.builtin` rather than `@number`.
        styled_texts
            .iter()
            .any(|(t, s)| *t == "42" && s.fg == Some(Color::LightRed)),
        "expected `42` highlighted as a builtin constant, got {styled_texts:?}"
    );
}

#[test]
fn unrecognized_extension_returns_none() {
    let path = "sample.this-extension-does-not-exist";
    assert!(highlight(&reg(), path, "hello\n", false).is_none());
}

#[test]
fn dockerfile_is_recognized_by_bare_filename() {
    let path = "Dockerfile";
    let text = "FROM ubuntu:22.04\nRUN echo hi\n";
    let lines = highlight(&reg(), path, text, false).unwrap();
    let styled_texts: Vec<(&str, Style)> = lines
        .iter()
        .flat_map(|l| l.spans.iter())
        .map(|s| (s.content.as_str(), s.style))
        .collect();

    assert!(
        styled_texts
            .iter()
            .any(|(t, s)| *t == "FROM" && s.fg == Some(Color::Magenta)),
        "expected `FROM` highlighted as a keyword, got {styled_texts:?}"
    );
    assert!(
        styled_texts
            .iter()
            .any(|(t, s)| *t == "RUN" && s.fg == Some(Color::Magenta)),
        "expected `RUN` highlighted as a keyword, got {styled_texts:?}"
    );
}

#[test]
fn dockerfile_suffixed_variant_is_recognized() {
    let path = "Dockerfile.dev";
    let text = "FROM scratch\n";
    assert!(highlight(&reg(), path, text, false).is_some());
}

#[test]
fn cargo_lock_is_highlighted_as_toml() {
    let path = "Cargo.lock";
    let text = "# This file is automatically generated by Cargo.\nversion = 4\n\n[[package]]\nname = \"iotactl\"\n";
    let lines = highlight(&reg(), path, text, false).unwrap();
    let styled_texts: Vec<(&str, Style)> = lines
        .iter()
        .flat_map(|l| l.spans.iter())
        .map(|s| (s.content.as_str(), s.style))
        .collect();

    assert!(
        styled_texts
            .iter()
            .any(|(t, s)| *t == "\"iotactl\"" && s.fg == Some(Color::Green)),
        "expected string value highlighted, got {styled_texts:?}"
    );
}

#[test]
fn shebang_detects_python_for_extensionless_file() {
    let path = "myscript";
    let text = "#!/usr/bin/env python3\ndef foo():\n    return 1\n";
    let lines = highlight(&reg(), path, text, false).unwrap();
    let styled_texts: Vec<(&str, Style)> = lines
        .iter()
        .flat_map(|l| l.spans.iter())
        .map(|s| (s.content.as_str(), s.style))
        .collect();

    assert!(
        styled_texts
            .iter()
            .any(|(t, s)| *t == "def" && s.fg == Some(Color::Magenta)),
        "expected `def` highlighted as a keyword, got {styled_texts:?}"
    );
}

#[test]
fn shebang_detects_bash_without_env_wrapper() {
    let path = "myscript";
    let text = "#!/bin/bash\necho hi\n";
    assert!(highlight(&reg(), path, text, false).is_some());
}

#[test]
fn extension_takes_priority_over_shebang() {
    // A `.py` file whose shebang points at a shell should still be
    // highlighted as Python, since the extension is the stronger signal.
    let path = "script.py";
    let text = "#!/bin/sh\ndef foo():\n    return 1\n";
    let lines = highlight(&reg(), path, text, false).unwrap();
    let styled_texts: Vec<(&str, Style)> = lines
        .iter()
        .flat_map(|l| l.spans.iter())
        .map(|s| (s.content.as_str(), s.style))
        .collect();

    assert!(
        styled_texts
            .iter()
            .any(|(t, s)| *t == "def" && s.fg == Some(Color::Magenta)),
        "expected `def` highlighted as a keyword (Python won over shebang's `sh`), got {styled_texts:?}"
    );
}

#[test]
fn no_shebang_and_no_extension_returns_none() {
    let path = "myscript";
    assert!(highlight(&reg(), path, "just some text\n", false).is_none());
}

#[test]
fn fenced_block_with_unknown_language_falls_back_to_plain_text() {
    // The fence's `injection.language` capture is whatever text follows
    // the opening ``` — for a language we don't have a grammar for, the
    // injection callback returns None and the content must render as
    // plain, unstyled text rather than panicking or losing content.
    let path = "sample.md";
    let text = "```not-a-real-language\nsome content here\n```\n";
    let lines = highlight(&reg(), path, text, false).unwrap();
    let content_line: String = lines[1].spans.iter().map(|s| s.content.as_str()).collect();
    assert_eq!(content_line, "some content here");
    assert!(
        lines[1].spans.iter().all(|s| s.style == Style::new()),
        "expected unrecognized fenced language to render as fully plain text, got {:?}",
        lines[1].spans
    );
}

#[test]
fn yaml_frontmatter_is_highlighted() {
    // Regression coverage for MARKDOWN_BLOCK_INJECTIONS_QUERY's
    // `(minus_metadata) @injection.content` pattern, which was
    // hand-written (to add `injection.include-children`) but never
    // actually exercised by a test.
    let path = "sample.md";
    let text = "---\nkey: value\n---\n";
    let lines = highlight(&reg(), path, text, false).unwrap();
    let styled_texts: Vec<(&str, Style)> = lines
        .iter()
        .flat_map(|l| l.spans.iter())
        .map(|s| (s.content.as_str(), s.style))
        .collect();

    assert!(
        styled_texts
            .iter()
            .any(|(t, s)| *t == "key" && s.fg == Some(Color::White)),
        "expected frontmatter key highlighted distinctly (white), got {styled_texts:?}"
    );
    assert!(
        styled_texts
            .iter()
            .any(|(t, s)| *t == "value" && s.fg == Some(Color::Green)),
        "expected frontmatter value highlighted as a string (green), got {styled_texts:?}"
    );
}

#[test]
fn heading_levels_get_distinct_colors() {
    let path = "sample.md";
    let text = "# One\n## Two\n### Three\n#### Four\n##### Five\n###### Six\n";
    let lines = highlight(&reg(), path, text, false).unwrap();
    let heading_style = |line: usize, text_content: &str| {
        lines[line]
            .spans
            .iter()
            .find(|s| s.content.as_str() == text_content)
            .unwrap_or_else(|| panic!("no span {text_content:?} on line {line}: {:?}", lines[line].spans))
            .style
    };

    let colors: Vec<Option<Color>> = vec![
        heading_style(0, "One").fg,
        heading_style(1, "Two").fg,
        heading_style(2, "Three").fg,
        heading_style(3, "Four").fg,
        heading_style(4, "Five").fg,
        heading_style(5, "Six").fg,
    ];

    for c in &colors {
        assert!(c.is_some(), "expected every heading level to have a color, got {colors:?}");
    }
    let unique: std::collections::HashSet<_> = colors.iter().collect();
    assert_eq!(
        unique.len(),
        colors.len(),
        "expected all six heading levels to have distinct colors, got {colors:?}"
    );
}

#[test]
fn setext_headings_get_distinct_colors() {
    let path = "sample.md";
    let text = "Title One\n=========\n\nTitle Two\n---------\n";
    let lines = highlight(&reg(), path, text, false).unwrap();

    let one_color = lines[0]
        .spans
        .iter()
        .find(|s| s.content.as_str() == "Title One")
        .expect("Title One span")
        .style
        .fg;
    // Blank line then underline separates the two setext headings.
    let two_line = lines
        .iter()
        .position(|l| l.spans.iter().any(|s| s.content.as_str() == "Title Two"))
        .expect("Title Two line");
    let two_color = lines[two_line]
        .spans
        .iter()
        .find(|s| s.content.as_str() == "Title Two")
        .expect("Title Two span")
        .style
        .fg;

    assert!(one_color.is_some() && two_color.is_some());
    assert_ne!(
        one_color, two_color,
        "expected setext h1 and h2 to have distinct colors"
    );
}

#[test]
fn hide_markers_strips_atx_heading_marker_and_gap() {
    let path = "sample.md";
    let text = "# Header\n";
    let lines = highlight(&reg(), path, text, true).unwrap();
    let rendered: String = lines[0].spans.iter().map(|s| s.content.as_str()).collect();
    assert_eq!(
        rendered, "Header",
        "expected the `#` marker and the gap after it both dropped, got {:?}",
        lines[0].spans
    );
    let heading_span = lines[0]
        .spans
        .iter()
        .find(|s| s.content.as_str() == "Header")
        .expect("Header span");
    assert!(
        heading_span.style.fg == Some(Color::Red) && heading_span.style.bold,
        "expected heading styling preserved even with markers hidden, got {:?}",
        heading_span.style
    );
}

#[test]
fn hide_markers_blanks_fenced_code_delimiter_lines() {
    let path = "sample.md";
    let text = "```rust\nfn f() {}\n```\n";
    let lines = highlight(&reg(), path, text, true).unwrap();
    assert!(
        lines[0].spans.is_empty(),
        "expected the opening ``` fence line to be blank, got {:?}",
        lines[0].spans
    );
    assert!(
        lines[2].spans.is_empty(),
        "expected the closing ``` fence line to be blank, got {:?}",
        lines[2].spans
    );
    let content: String = lines[1].spans.iter().map(|s| s.content.as_str()).collect();
    assert_eq!(content, "fn f() {}");
    assert!(
        lines[1]
            .spans
            .iter()
            .any(|s| s.content.as_str() == "fn" && s.style.fg == Some(Color::Magenta)),
        "expected fenced content to still be syntax-highlighted with markers hidden, got {:?}",
        lines[1].spans
    );
}

#[test]
fn hide_markers_strips_emphasis_and_code_span_delimiters() {
    let path = "sample.md";
    let text = "This is *italic* and `code`.\n";
    let lines = highlight(&reg(), path, text, true).unwrap();
    let rendered: String = lines[0].spans.iter().map(|s| s.content.as_str()).collect();
    assert_eq!(rendered, "This is italic and code.");
    let italic_span = lines[0]
        .spans
        .iter()
        .find(|s| s.content.as_str() == "italic")
        .expect("italic span");
    assert!(
        italic_span.style.italic,
        "expected emphasis styling preserved even with the `*` delimiters hidden, got {:?}",
        italic_span.style
    );
    let code_span = lines[0]
        .spans
        .iter()
        .find(|s| s.content.as_str() == "code")
        .expect("code span");
    assert_eq!(
        code_span.style.fg,
        Some(Color::Green),
        "expected code-span styling preserved even with the ` delimiters hidden, got {:?}",
        code_span.style
    );
}

#[test]
fn hide_markers_strips_blockquote_marker_but_keeps_list_marker() {
    // List bullets carry structure (nothing else on screen says "this
    // is a list item"), so hide_markers exempts them — unlike a
    // blockquote marker, which is pure decoration and still gets hidden.
    let path = "sample.md";
    let text = "- item one\n> quoted\n";
    let lines = highlight(&reg(), path, text, true).unwrap();
    let line0: String = lines[0].spans.iter().map(|s| s.content.as_str()).collect();
    let line1: String = lines[1].spans.iter().map(|s| s.content.as_str()).collect();
    assert_eq!(line0, "- item one");
    assert_eq!(line1, "quoted");
    let marker_span = lines[0]
        .spans
        .iter()
        .find(|s| s.content.as_str() == "- ")
        .expect("list marker span");
    assert_eq!(
        marker_span.style.fg,
        Some(Color::DarkGray),
        "expected the list marker to still be dimmed, got {:?}",
        marker_span.style
    );
}

#[test]
fn hide_markers_is_noop_for_non_markdown() {
    let path = "sample.rs";
    let text = "fn main() {\n    let x = 42;\n}\n";
    let shown = highlight(&reg(), path, text, false).unwrap();
    let hidden = highlight(&reg(), path, text, true).unwrap();
    let render = |lines: &[Line]| -> String {
        lines
            .iter()
            .flat_map(|l| l.spans.iter())
            .map(|s| s.content.as_str())
            .collect()
    };
    assert_eq!(
        render(&shown),
        render(&hidden),
        "hide_markers should have no effect on a language with no @punctuation.special capture"
    );
}

#[test]
fn language_is_picked_by_extension_then_filename_then_shebang() {
    assert_eq!(language_for("a/b/main.rs", ""), Some("rust"));
    assert_eq!(language_for("Dockerfile", ""), Some("dockerfile"));
    assert_eq!(language_for("run", "#!/usr/bin/env python3\n"), Some("python"));
    assert_eq!(language_for("script.py", "#!/bin/sh\n"), Some("python"));
    assert_eq!(language_for("notes", "plain\n"), None);
}

#[test]
fn capture_names_map_to_styles() {
    assert_eq!(style_for("keyword").map(|s| s.fg), Some(Some(Color::Magenta)));
    assert_eq!(style_for("string").map(|s| s.fg), Some(Some(Color::Green)));
    assert!(style_for("no.such.capture").is_none());
}

#[test]
fn unhighlightable_text_comes_back_sanitized_and_plain() {
    let t = highlighted_text(&reg(), "notes", "a\tb\x01", false);
    assert_eq!(t.plain(), "a   b^A");
}

#[test]
fn registry_holds_every_supported_language() {
    let r = reg();
    for name in [
        "rust", "toml", "python", "javascript", "typescript", "tsx", "json", "yaml", "c", "cpp", "go",
        "html", "css", "bash", "java", "lua", "ruby", "markdown", "markdown_inline", "dockerfile",
    ] {
        assert!(r.index_of(name).is_some(), "{name} is not registered");
        assert!(r.get(name).is_some(), "{name} has no configuration");
    }
    assert!(r.index_of("cobol").is_none());
}
