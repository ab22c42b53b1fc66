use iotactl::browser::{
    App, AppAction, AppUpdate, KeyCommand, KeyInput, ToggleSetup, apply_toggle_overrides, key_command,
    load_source_toggles,
};
use iotactl::entry::Entry;
use iotactl::error::{ErrorKind, SourceError};
use iotactl::registry::{ToggleState, node_source_types};
use iotactl::sanitize::SanitizedText;
use iotactl::style::Style;
use iotactl::toggle::Toggle;

fn entry(name: &str, parent: &[&str], is_dir: bool) -> Entry {
    let mut id: Vec<String> = parent.iter().map(|s| s.to_string()).collect();
    id.push(name.to_string());
    Entry {
        name: name.to_string(),
        id,
        is_dir,
        is_link: false,
        suggested_commands: Vec::new(),
        nerd_icon: None,
        nerd_icon_color: None,
    }
}

fn root() -> Entry {
    Entry {
        name: "top".to_string(),
        id: Vec::new(),
        is_dir: true,
        is_link: false,
        suggested_commands: Vec::new(),
        nerd_icon: None,
        nerd_icon_color: None,
    }
}

fn setup() -> ToggleSetup {
    ToggleSetup {
        wrap_preview: false,
        show_line_numbers: false,
        zoom_preview: false,
        source_toggles: vec![(Toggle::new("hidden", 'H'), false)],
        writes: Vec::new(),
    }
}

fn fetched_preview(acts: &[AppAction]) -> Option<(u64, Vec<String>)> {
    acts.iter().find_map(|a| match a {
        AppAction::FetchPreview { epoch, id, .. } => Some((*epoch, id.clone())),
        _ => None,
    })
}

fn start() -> App {
    let listing = vec![entry("a", &[], true), entry("b.txt", &[], false), entry("c.txt", &[], false)];
    let (app, acts) = App::new(root(), setup(), Vec::new(), Ok(listing), 0);
    assert_eq!(fetched_preview(&acts), Some((1, vec!["a".to_string()])));
    app
}

#[test]
fn startup_lists_the_start_node_and_previews_its_first_entry() {
    let app = start();
    assert_eq!(app.columns().len(), 1);
    assert_eq!(app.columns()[0].selected, Some(0));
    assert_eq!(app.cwd(), "top");
    assert_eq!(app.message(), None);
}

#[test]
fn a_failed_start_listing_leaves_an_empty_column_and_a_toast() {
    let err = SourceError::new(ErrorKind::NotFound, "No such file or directory (os error 2)".to_string());
    let (app, acts) = App::new(root(), setup(), vec!["x".to_string()], Err(err), 100);
    assert!(acts.is_empty());
    assert_eq!(app.columns()[0].entries.len(), 0);
    assert_eq!(app.message().map(|m| m.as_str()), Some("Error reading /x: No such file or directory (os error 2)"));
    assert_eq!(app.message_ttl(100), Some(2000));
    let mut app = app;
    app.tick(2100);
    assert_eq!(app.message(), None);
}

#[test]
fn moving_the_cursor_stops_at_either_end() {
    let mut app = start();
    let acts = app.move_selection(1, 10);
    assert_eq!(fetched_preview(&acts), Some((2, vec!["b.txt".to_string()])));
    let acts = app.move_selection(10, 10);
    assert_eq!(app.columns()[0].selected, Some(2));
    assert_eq!(fetched_preview(&acts).map(|p| p.0), Some(3));
    assert!(app.move_selection(1, 10).is_empty());
    assert!(app.preview_shows_loading(90));
    assert!(!app.preview_shows_loading(89));
    assert_eq!(app.preview_loading_ttl(50), Some(40));
}

#[test]
fn stale_results_are_dropped() {
    let mut app = start();
    app.move_selection(1, 0);
    let stale = AppUpdate::PreviewLoaded {
        epoch: 1,
        text: SanitizedText::from_text("old", Style::new()),
        override_disable_line_numbers: false,
    };
    assert!(app.apply_update(stale, 0).is_empty());
    assert_eq!(app.preview().line_count(), 0);
    let fresh = AppUpdate::PreviewLoaded {
        epoch: 2,
        text: SanitizedText::from_text("new\ntext", Style::new()),
        override_disable_line_numbers: false,
    };
    app.apply_update(fresh, 0);
    assert_eq!(app.preview().plain(), "new\ntext");
    assert!(!app.preview_shows_loading(1000));
}

#[test]
fn entering_a_directory_opens_a_loading_column() {
    let mut app = start();
    let acts = app.enter(0);
    assert_eq!(app.columns().len(), 2);
    assert!(app.columns()[1].loading);
    let epoch = match &acts[..] {
        [AppAction::FetchColumn { epoch, id }] => {
            assert_eq!(id, &vec!["a".to_string()]);
            *epoch
        }
        _ => panic!("expected one listing fetch"),
    };
    let acts = app.apply_update(
        AppUpdate::ColumnLoaded { epoch, id: vec!["a".to_string()], result: Ok(vec![entry("x", &["a"], false)]) },
        0,
    );
    assert!(!app.columns()[1].loading);
    assert_eq!(app.columns()[1].selected, Some(0));
    assert_eq!(fetched_preview(&acts).map(|p| p.1), Some(vec!["a".to_string(), "x".to_string()]));
    assert_eq!(app.column_label(1), "a");
    app.go_up(0);
    assert_eq!(app.columns().len(), 1);
    assert!(app.go_up(0).is_empty());
    assert_eq!(app.columns().len(), 1);
}

#[test]
fn an_empty_directory_is_not_opened() {
    let mut app = start();
    let acts = app.enter(0);
    let epoch = match &acts[..] {
        [AppAction::FetchColumn { epoch, .. }] => *epoch,
        _ => panic!("expected one listing fetch"),
    };
    app.apply_update(AppUpdate::ColumnLoaded { epoch, id: vec!["a".to_string()], result: Ok(Vec::new()) }, 5);
    assert_eq!(app.columns().len(), 1);
    assert_eq!(app.message().map(|m| m.as_str()), Some("Directory is empty: /a"));
}

#[test]
fn a_file_is_previewed_in_focus_rather_than_entered() {
    let mut app = start();
    app.move_selection(1, 0);
    assert!(app.enter(0).is_empty());
    assert!(app.preview_focused());
    app.unfocus_preview();
    assert!(!app.preview_focused());
}

#[test]
fn the_cursor_is_found_again_by_name_after_a_reload() {
    let mut app = start();
    app.move_selection(2, 0);
    assert_eq!(app.columns()[0].selected, Some(2));
    let acts = app.toggle_source_toggle('H');
    let epoch = match &acts[..] {
        [AppAction::SetSourceToggle { toggle, value }, AppAction::ReloadColumns { epoch, ids }] => {
            assert_eq!(toggle.name, "hidden");
            assert!(*value);
            assert_eq!(ids, &vec![Vec::<String>::new()]);
            *epoch
        }
        _ => panic!("expected a toggle write and a reload"),
    };
    assert_eq!(app.source_toggles()[0].1, true);
    let reloaded = vec![entry(".hidden", &[], false), entry("a", &[], true), entry("b.txt", &[], false), entry("c.txt", &[], false)];
    app.apply_update(AppUpdate::ColumnsReloaded { epoch, results: vec![(Vec::new(), Ok(reloaded))] }, 0);
    assert_eq!(app.columns()[0].selected, Some(3));
    assert!(app.toggle_source_toggle('?').is_empty());
}

#[test]
fn keys_map_to_commands() {
    assert_eq!(key_command(KeyInput::Char { c: 'q', ctrl: false }, false, false), KeyCommand::Quit);
    assert_eq!(key_command(KeyInput::Char { c: 'c', ctrl: true }, true, false), KeyCommand::Quit);
    assert_eq!(key_command(KeyInput::Char { c: 'c', ctrl: false }, true, false), KeyCommand::SourceToggle('c'));
    assert_eq!(key_command(KeyInput::Char { c: 'd', ctrl: true }, true, false), KeyCommand::ScrollPreview(5));
    assert_eq!(key_command(KeyInput::PageUp, false, false), KeyCommand::MoveSelection(-10));
    assert_eq!(key_command(KeyInput::Char { c: 'g', ctrl: false }, false, false), KeyCommand::AwaitSecondG);
    assert_eq!(key_command(KeyInput::Char { c: 'g', ctrl: false }, false, true), KeyCommand::SelectFirst);
    assert_eq!(key_command(KeyInput::Right, true, false), KeyCommand::Nothing);
}

#[test]
fn gg_jumps_to_the_first_entry() {
    let mut app = start();
    app.handle_key(KeyInput::Char { c: 'G', ctrl: false }, 0);
    assert_eq!(app.columns()[0].selected, Some(2));
    app.handle_key(KeyInput::Char { c: 'g', ctrl: false }, 0);
    assert!(app.pending_g());
    assert_eq!(app.columns()[0].selected, Some(2));
    app.handle_key(KeyInput::Char { c: 'g', ctrl: false }, 0);
    assert_eq!(app.columns()[0].selected, Some(0));
    app.handle_key(KeyInput::Esc, 0);
    assert!(app.should_quit());
}

#[test]
fn scrolling_keeps_within_the_preview() {
    let mut app = start();
    let text: String = (1..=30).map(|i| format!("line {i}\n")).collect();
    app.apply_update(
        AppUpdate::PreviewLoaded { epoch: 1, text: SanitizedText::from_text(&text, Style::new()), override_disable_line_numbers: false },
        0,
    );
    app.set_viewport(10, 40);
    app.preview_scroll_by(100);
    assert_eq!(app.preview_scroll(), 21);
    app.preview_scroll_by(-5);
    assert_eq!(app.preview_scroll(), 16);
    app.preview_scroll_by(-100);
    assert_eq!(app.preview_scroll(), 0);
    app.preview_scroll_bottom();
    assert_eq!(app.preview_scroll(), 21);
    assert_eq!(app.preview_line_number_width(), 3);
    assert_eq!(app.preview_gutter_width(), 0);
    app.toggle_line_numbers();
    assert_eq!(app.preview_gutter_width(), 4);
}

#[test]
fn unknown_toggle_names_are_refused_with_the_valid_list() {
    let toggles = vec![(Toggle::new("hidden", 'H'), false), (Toggle::new("raw", 'r'), false)];
    let Err(msg) = apply_toggle_overrides(toggles.clone(), &[("bogus".to_string(), true)]) else {
        panic!("expected an unknown toggle to be refused");
    };
    assert_eq!(msg, "unknown toggle \"bogus\" (valid toggles: hidden, meta, numbers, raw, wrap, zoom)");
    let setup = apply_toggle_overrides(
        toggles,
        &[("wrap".to_string(), true), ("raw".to_string(), true), ("meta".to_string(), true), ("raw".to_string(), false)],
    )
    .unwrap();
    assert!(setup.wrap_preview);
    assert_eq!(setup.source_toggles[1].1, false);
    assert_eq!(setup.writes.len(), 2);
    assert_eq!(setup.writes[1].0.name, "raw");
    assert!(!setup.writes[1].1);
}

#[test]
fn source_toggles_are_loaded_with_their_values() {
    let types = node_source_types();
    let state = ToggleState { hidden: true, raw: false, meta: true };
    let loaded = load_source_toggles(&types[1], &state);
    let pairs: Vec<(String, char, bool)> = loaded.iter().map(|(t, v)| (t.name.clone(), t.key, *v)).collect();
    assert_eq!(
        pairs,
        vec![("hidden".to_string(), 'H', true), ("raw".to_string(), 'r', false), ("meta".to_string(), 'm', true)]
    );
}

#[test]
fn going_up_right_after_entering_restores_the_columns() {
    let mut app = start();
    app.move_selection(0, 0);
    let before: Vec<(Vec<String>, Option<usize>, usize)> =
        app.columns().iter().map(|c| (c.id.clone(), c.selected, c.entries.len())).collect();
    app.enter(0);
    assert_eq!(app.columns().len(), 2);
    app.go_up(0);
    let after: Vec<(Vec<String>, Option<usize>, usize)> =
        app.columns().iter().map(|c| (c.id.clone(), c.selected, c.entries.len())).collect();
    assert_eq!(after, before);
    assert!(!app.preview_focused());
    assert_eq!(app.selected_entry().map(|e| e.name.clone()), Some("a".to_string()));
}

#[test]
fn flipping_a_source_toggle_twice_restores_it() {
    let mut app = start();
    let acts = app.toggle_source_toggle('H');
    assert!(matches!(&acts[0], AppAction::SetSourceToggle { toggle, value: true } if toggle.name == "hidden"));
    assert!(app.source_toggles()[0].1);
    let acts = app.toggle_source_toggle('H');
    assert!(matches!(&acts[0], AppAction::SetSourceToggle { value: false, .. }));
    assert!(!app.source_toggles()[0].1);
    assert!(app.toggle_source_toggle('?').is_empty());
}

fn lines(k: usize) -> SanitizedText {
    let text: String = (1..=k).map(|i| format!("line {i}\n")).collect();
    SanitizedText::from_text(&text, Style::new())
}

#[test]
fn a_reload_keeps_the_scroll_fraction_as_doubles_compute_it() {
    let mut app = start();
    app.set_viewport(10, 40);
    app.apply_update(AppUpdate::PreviewLoaded { epoch: 1, text: lines(19), override_disable_line_numbers: false }, 0);
    app.preview_scroll_bottom();
    assert_eq!(app.preview_scroll(), 10);
    app.preview_scroll_by(-3);
    assert_eq!(app.preview_scroll(), 7);
    let acts = app.toggle_source_toggle('H');
    let epoch = match &acts[..] {
        [AppAction::SetSourceToggle { .. }, AppAction::ReloadColumns { epoch, .. }] => *epoch,
        _ => panic!("expected a toggle write and a reload"),
    };
    let listing = vec![entry("a", &[], true), entry("b.txt", &[], false), entry("c.txt", &[], false)];
    let acts = app.apply_update(AppUpdate::ColumnsReloaded { epoch, results: vec![(Vec::new(), Ok(listing))] }, 0);
    let (preview_epoch, id) = fetched_preview(&acts).expect("a preview fetch");
    assert_eq!(id, vec!["a".to_string()]);
    app.apply_update(AppUpdate::PreviewLoaded { epoch: preview_epoch, text: lines(54), override_disable_line_numbers: false }, 0);
    // 7/10 of 45 is 31.5 exactly, but 0.7 * 45.0 is 31.499999999999996 in
    // doubles, which rounds to 31.
    assert_eq!(app.preview_scroll(), 31);
}
