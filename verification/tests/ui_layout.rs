use iotactl::browser::{App, ToggleSetup};
use iotactl::entry::Entry;
use iotactl::style::{Color, Span, Style};
use iotactl::toggle::Toggle;
use iotactl::ui::{
    FOOTER_WRAP_INDENT, MouseTarget, Rect, box_style, column_layout, entry_item, footer_text, gutter_line, hit_test,
    toggle_span, wrap_items,
};

fn item(text: &str) -> Vec<Span> {
    vec![Span { content: text.to_string(), style: Style::new() }]
}

fn line_text(spans: &[Span]) -> String {
    spans.iter().map(|s| s.content.as_str()).collect()
}

#[test]
fn footer_items_wrap_between_bullets() {
    let items = vec![item("3 items"), item("h/j/k/l move"), item("gg/G top/bottom"), item("q quit")];
    let lines = wrap_items(&items, 200, FOOTER_WRAP_INDENT, true);
    assert_eq!(lines.len(), 1);
    assert_eq!(line_text(&lines[0].spans), "3 items h/j/k/l move • gg/G top/bottom • q quit");
    let lines = wrap_items(&items, 25, FOOTER_WRAP_INDENT, true);
    let texts: Vec<String> = lines.iter().map(|l| line_text(&l.spans)).collect();
    assert_eq!(texts, vec!["3 items h/j/k/l move", "         • gg/G top/bottom", "         • q quit"]);
    let lines = wrap_items(&Vec::new(), 10, "", false);
    assert_eq!(lines.len(), 1);
    assert!(lines[0].spans.is_empty());
}

#[test]
fn toggles_show_key_and_state() {
    let on = toggle_span('H', "hidden", true);
    assert_eq!(on.content, "H hidden");
    assert_eq!(on.style, Style::new().fg(Color::Green).bold());
    let off = toggle_span('w', "wrap", false);
    assert_eq!(off.style, Style::new().fg(Color::DarkGray));
}

#[test]
fn gutter_numbers_are_right_aligned() {
    assert_eq!(line_text(&gutter_line(Some(7), 3).spans), "  7 ");
    assert_eq!(line_text(&gutter_line(Some(12345), 3).spans), "12345 ");
    assert_eq!(line_text(&gutter_line(None, 3).spans), "    ");
}

#[test]
fn focused_boxes_are_cyan() {
    assert_eq!(box_style(true), (Style::new().fg(Color::Cyan), Style::new().fg(Color::Cyan).bold()));
    assert_eq!(box_style(false), (Style::new().fg(Color::DarkGray), Style::new().fg(Color::Gray)));
}

#[test]
fn selected_rows_recolor_only_the_label() {
    let e = Entry {
        name: "src".to_string(),
        id: vec!["src".to_string()],
        is_dir: true,
        is_link: false,
        suggested_commands: Vec::new(),
        nerd_icon: Some('\u{f07b}'),
        nerd_icon_color: None,
    };
    let l = entry_item(&e, Some(Color::Rgb(1, 2, 3)), true);
    assert_eq!(l.spans.len(), 2);
    assert_eq!(l.spans[0].content, "\u{f07b} ");
    assert_eq!(l.spans[0].style.fg, Some(Color::Cyan));
    assert_eq!(l.spans[1].content, "src/");
    assert_eq!(l.spans[1].style.fg, Some(Color::Rgb(1, 2, 3)));
    let plain = entry_item(&e, None, false);
    assert_eq!(plain.spans.len(), 1);
}

fn app_with(n: usize) -> App {
    let listing: Vec<Entry> = (0..n)
        .map(|i| Entry {
            name: format!("f{i}"),
            id: vec![format!("f{i}")],
            is_dir: false,
            is_link: false,
            suggested_commands: Vec::new(),
            nerd_icon: None,
            nerd_icon_color: None,
        })
        .collect();
    let setup = ToggleSetup {
        wrap_preview: false,
        show_line_numbers: false,
        zoom_preview: false,
        source_toggles: vec![(Toggle::new("hidden", 'H'), false)],
        writes: Vec::new(),
    };
    App::new(
        Entry {
            name: "top".to_string(),
            id: Vec::new(),
            is_dir: true,
            is_link: false,
            suggested_commands: Vec::new(),
            nerd_icon: None,
            nerd_icon_color: None,
        },
        setup,
        Vec::new(),
        Ok(listing),
        0,
    )
    .0
}

#[test]
fn the_footer_counts_the_focused_columns_entries() {
    let app = app_with(3);
    let lines = footer_text(&app, 200);
    assert_eq!(line_text(&lines[0].spans), "3 items h/j/k/l move • gg/G top/bottom • t toggles • q quit");
}

#[test]
fn columns_share_the_width_with_the_preview() {
    let area = Rect { x: 0, y: 0, width: 100, height: 20 };
    let (start, cols, preview) = column_layout(area, 1, false);
    assert_eq!(start, 0);
    assert_eq!(cols.len(), 1);
    assert_eq!((cols[0].x, cols[0].width), (0, 40));
    assert_eq!((preview.x, preview.width), (40, 60));
    let (start, cols, _) = column_layout(area, 5, false);
    assert_eq!(start, 3);
    assert_eq!(cols.len(), 2);
}

#[test]
fn clicks_land_on_rows() {
    let app = app_with(3);
    let term = Rect { x: 0, y: 0, width: 100, height: 20 };
    assert_eq!(hit_test(term, &app, 5, 2), Some(MouseTarget::Entry { col_idx: 0, row_idx: 1 }));
    assert_eq!(hit_test(term, &app, 5, 0), None);
    assert_eq!(hit_test(term, &app, 60, 5), Some(MouseTarget::Preview));
    assert_eq!(hit_test(term, &app, 5, 19), None);
}
