use iotactl::error::ErrorKind;
use iotactl::highlight::build_registry;
use iotactl::manual::ManualSource;

#[test]
fn the_manual_lists_its_topics_by_title() {
    let manual = ManualSource::new("").unwrap();
    let entries = manual.read_dir(&[]).unwrap();
    let names: Vec<_> = entries.iter().map(|e| e.name.as_str()).collect();
    assert_eq!(names, vec!["About This Manual", "Command-Line Options", "Navigation & Keybindings", "Node Sources", "Filesystem", "Zip Archives"]);
    let fs = entries.iter().find(|e| e.name == "Filesystem").unwrap();
    assert!(fs.is_dir);
    assert_eq!(fs.id, vec!["filesystem"]);
    assert!(!entries[0].is_dir);
}

#[test]
fn a_manual_scoped_to_a_topic_addresses_pages_relative_to_it() {
    let manual = ManualSource::new("filesystem").unwrap();
    let names: Vec<_> = manual.read_dir(&[]).unwrap().into_iter().map(|e| e.name).collect();
    assert_eq!(names, vec!["Overview", "Toggles"]);
    assert_eq!(manual.root_entry().name, "Filesystem");
    assert!(manual.page_text(&["toggles".to_string()]).unwrap().contains("hidden"));
}

#[test]
fn a_missing_topic_is_refused() {
    let err = ManualSource::new("nope/deeper").err().unwrap();
    assert_eq!(err.kind, ErrorKind::NotFound);
    assert_eq!(err.message, "no such manual page: nope/deeper");
    let manual = ManualSource::new("").unwrap();
    assert_eq!(manual.read_dir(&["cli".to_string(), "x".to_string()]).unwrap_err().kind, ErrorKind::NotFound);
}

#[test]
fn previews_show_a_page_or_a_topic_listing() {
    let reg = build_registry();
    let manual = ManualSource::new("").unwrap();
    let page = manual.preview(&reg, &["cli".to_string()], true, false);
    assert!(!page.override_disable_line_numbers);
    assert!(page.text.plain().contains("--toggle-on"));
    let topic = manual.preview(&reg, &["filesystem".to_string()], true, false);
    assert!(topic.override_disable_line_numbers);
    assert_eq!(topic.text.plain(), "Overview\nToggles");
    let missing = manual.preview(&reg, &["nope".to_string()], true, false);
    assert_eq!(missing.text.plain(), "no such manual page: nope");
}

#[test]
fn a_scoped_manual_sees_what_the_whole_manual_has_below_its_topic() {
    let whole = ManualSource::new("").unwrap();
    let scoped = ManualSource::new("filesystem").unwrap();
    let a: Vec<_> = whole.read_dir(&["filesystem".to_string()]).unwrap().into_iter().map(|e| e.name).collect();
    let b: Vec<_> = scoped.read_dir(&[]).unwrap().into_iter().map(|e| e.name).collect();
    assert_eq!(a, b);
    assert_eq!(
        whole.page_text(&["filesystem".to_string(), "overview".to_string()]).unwrap(),
        scoped.page_text(&["overview".to_string()]).unwrap()
    );
}
