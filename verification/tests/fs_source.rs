use iotactl::fs::PreviewStart;
use iotactl::fs_preview::{listing_preview, preview_after_stat, AfterStat, PREVIEW_READ_LIMIT};
use iotactl::fs_preview::meta_preview_of;
use iotactl::error::{ErrorKind, SourceError};
use iotactl::fs::{entry_icon, file_icon, FsSource};
use iotactl::registry::{node_source_types, SourceKind, ToggleState};
use iotactl::toggle::Toggle;
use iotactl::vfs::DirEntryInfo;

fn child(name: &str, is_dir: bool) -> DirEntryInfo {
    DirEntryInfo { name: name.to_string(), is_dir, is_link: false }
}

fn source(root: &str) -> FsSource {
    FsSource::new(root, Ok(root.to_string()), false).unwrap()
}

fn names(source: &FsSource, children: &[DirEntryInfo]) -> Vec<String> {
    source.listing(&["sub".to_string()], children).into_iter().map(|e| e.name).collect()
}

#[test]
fn listings_put_directories_first_then_sort_names_ignoring_case() {
    let fs = source("/r");
    let children = vec![child("b.txt", false), child("B-dir", true), child("a.txt", false), child("Zed.md", false), child("a-dir", true)];
    assert_eq!(names(&fs, &children), vec!["a-dir", "B-dir", "a.txt", "b.txt", "Zed.md"]);
}

#[test]
fn hidden_entries_show_only_with_the_hidden_toggle() {
    let mut fs = source("/r");
    let children = vec![child(".env", false), child("B.txt", false), child("a.txt", false)];
    assert_eq!(names(&fs, &children), vec!["a.txt", "B.txt"]);
    fs.set_toggle(&Toggle::new("hidden", 'H'), true).unwrap();
    assert_eq!(names(&fs, &children), vec![".env", "a.txt", "B.txt"]);
    assert!(fs.get_toggle(&Toggle::new("hidden", 'H')).unwrap());
    assert!(!fs.get_toggle(&Toggle::new("raw", 'r')).unwrap());
}

#[test]
fn listed_entries_carry_their_ids_and_icons() {
    let fs = source("/r");
    let entries = fs.listing(&["sub".to_string()], &[child("main.rs", false), child("src", true)]);
    assert_eq!(entries[0].name, "src");
    assert_eq!(entries[0].id, vec!["sub", "src"]);
    assert!(entries[0].is_dir);
    assert_eq!((entries[0].nerd_icon, entries[0].nerd_icon_color), {
        let (icon, color) = entry_icon("src", true);
        (Some(icon), color)
    });
    assert_eq!(entries[1].id, vec!["sub", "main.rs"]);
    assert_eq!(entries[1].nerd_icon, Some(file_icon("main.rs").0));
}

#[test]
fn unknown_toggles_are_refused_by_quoted_name() {
    let mut fs = source("/r");
    let err = fs.set_toggle(&Toggle::new("bogus", 'b'), true).unwrap_err();
    assert_eq!(err.kind, ErrorKind::Unsupported);
    assert_eq!(err.message, "FsSource has no toggle named \"bogus\"");
    let err = fs.get_toggle(&Toggle::new("bo\"gus", 'b')).unwrap_err();
    assert_eq!(err.message, "FsSource has no toggle named \"bo\\\"gus\"");
}

#[test]
fn ids_resolve_under_the_root_and_never_escape_it() {
    let fs = source("/srv/data");
    assert_eq!(fs.path_from_segments(&[]).unwrap(), "/srv/data");
    assert_eq!(fs.path_from_segments(&["a".to_string(), "b.txt".to_string()]).unwrap(), "/srv/data/a/b.txt");
    for bad in ["..", ".", "", "/etc", "a/../b"] {
        let err = fs.path_from_segments(&["a".to_string(), bad.to_string()]).unwrap_err();
        assert_eq!(err.kind, ErrorKind::InvalidInput, "segment {bad:?}");
        assert_eq!(err.message, format!("invalid path segment: {bad:?}"));
    }
    assert_eq!(source("/").path_from_segments(&["etc".to_string()]).unwrap(), "/etc");
}

#[test]
fn the_root_entry_is_named_after_the_last_component() {
    let entry = source("/home/user/projects").root_entry();
    assert_eq!(entry.name, "projects");
    assert!(entry.is_dir);
    assert!(entry.id.is_empty());
    assert_eq!(source("/").root_entry().name, "/");
}

#[test]
fn a_root_that_cannot_be_resolved_is_reported_with_the_path_given() {
    let err = FsSource::new("some/bad/path", Err(SourceError::new(ErrorKind::NotFound, "No such file or directory (os error 2)".to_string())), false)
        .unwrap_err();
    assert_eq!(err.kind, ErrorKind::NotFound);
    assert_eq!(err.message, "some/bad/path: No such file or directory (os error 2)");
}

#[test]
fn file_icons_match_whole_names_before_extensions_ignoring_case() {
    assert_eq!(file_icon("Cargo.lock"), file_icon("cargo.lock"));
    assert_eq!(file_icon("MAIN.RS"), file_icon("main.rs"));
    assert_ne!(file_icon("main.rs"), file_icon("unknown.zzz"));
    assert_eq!(file_icon("a.zzz"), file_icon("b.qqq"));
}

#[test]
fn type_toggles_read_back_what_was_written() {
    let types = node_source_types();
    let fs_type = types.iter().find(|t| t.kind == SourceKind::Fs).unwrap();
    let mut state = ToggleState { hidden: false, raw: false, meta: false };
    let meta = Toggle::new("meta", 'm');
    fs_type.set_toggle(&mut state, &meta, true).unwrap();
    assert!(fs_type.get_toggle(&state, &meta).unwrap());
    assert!(!fs_type.get_toggle(&state, &Toggle::new("hidden", 'H')).unwrap());
    assert!(fs_type.has_toggle("raw"));
    assert!(!fs_type.has_toggle("wrap"));
    let manual_type = types.iter().find(|t| t.kind == SourceKind::Manual).unwrap();
    assert!(manual_type.set_toggle(&mut state, &meta, false).is_err());
    assert_eq!(state, ToggleState { hidden: false, raw: false, meta: true });
}

fn meta(is_dir: bool, is_symlink: bool, len: u64) -> iotactl::vfs::Metadata {
    iotactl::vfs::Metadata {
        is_dir,
        is_file: !is_dir && !is_symlink,
        is_symlink,
        len,
        modified: Some(0),
        accessed: None,
        created: None,
        unix: Some(iotactl::vfs::UnixMetadata { mode: 0o100644, uid: 1000, gid: 100 }),
    }
}

#[test]
fn metadata_previews_follow_links_and_mark_broken_ones() {
    let not_found = || SourceError::new(ErrorKind::NotFound, "No such file or directory (os error 2)".to_string());

    let text = meta_preview_of("/r/gone", Err(not_found()), Err(not_found()), Err(not_found()), None).plain();
    assert_eq!(text, "No such file or directory (os error 2)");

    let text = meta_preview_of("/r/link", Ok(meta(false, true, 3)), Ok(meta(true, false, 0)), Ok("sub".to_string()), Some(7)).plain();
    assert!(text.contains("Name        link\n"), "{text}");
    assert!(text.contains("Type        symlink -> sub\n"), "{text}");
    assert!(text.contains("Entries     7\n"), "{text}");

    let text = meta_preview_of("/r/dead", Ok(meta(false, true, 3)), Err(not_found()), Ok("missing".to_string()), None).plain();
    assert!(text.contains("Type        symlink -> missing (broken)\n"), "{text}");
    assert!(text.contains("Size        3B (3 bytes)\n"), "{text}");
    assert!(text.contains("Permissions 644 (rw-r--r--)\n"), "{text}");
    assert!(text.contains("Owner       uid=1000 gid=100"), "{text}");

    let text = meta_preview_of("/r/file.txt", Ok(meta(false, false, 2048)), Ok(meta(false, false, 1)), Err(not_found()), Some(9)).plain();
    assert!(text.contains("Type        regular file\n"), "{text}");
    assert!(text.contains("Size        2.0K (2048 bytes)\n"), "{text}");
    assert!(!text.contains("Entries"), "{text}");
}

#[test]
fn previews_are_decided_by_the_node_and_its_metadata() {
    let mut fs = source("/r");
    match fs.preview_start(&["..".to_string()]) {
        PreviewStart::Done(p) => assert_eq!(p.text.plain(), "invalid path segment: \"..\""),
        _ => panic!("a bad id is refused at once"),
    }
    assert!(matches!(fs.preview_start(&["a".to_string()]), PreviewStart::Stat(p) if p == "/r/a"));
    fs.set_toggle(&Toggle::new("meta", 'm'), true).unwrap();
    assert!(matches!(fs.preview_start(&["a".to_string()]), PreviewStart::Meta(p) if p == "/r/a"));

    assert!(matches!(preview_after_stat(Ok(meta(true, false, 0))), AfterStat::ListDir));
    assert!(matches!(
        preview_after_stat(Ok(meta(false, false, 99))),
        AfterStat::ReadPrefix { limit, total: 99 } if limit == PREVIEW_READ_LIMIT
    ));
    match preview_after_stat(Err(SourceError::new(ErrorKind::NotFound, "gone".to_string()))) {
        AfterStat::Done(p) => assert_eq!(p.text.plain(), "gone"),
        _ => panic!("an unreadable node shows its error"),
    }
    let empty = listing_preview(Ok(Vec::new()), false);
    assert!(empty.override_disable_line_numbers);
    assert_eq!(empty.text.plain(), "empty directory");
}
