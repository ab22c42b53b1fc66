use iotactl::byte_size::parse_byte_size;
use iotactl::cli::{env_arg_refusal, order_toggle_requests, splice_env_args};
use iotactl::json::split_id;
use iotactl::error::{ErrorKind, SourceError};
use iotactl::fs::FsSource;
use iotactl::registry::{CreatePlan, SourceKind, check_pipe, looks_like_uri, plan_create, select_segment, split_pipe_segments, toggle_known};

#[test]
fn parse_byte_size_accepts_plain_bytes() {
    assert_eq!(parse_byte_size("0"), Ok(0));
    assert_eq!(parse_byte_size("1024"), Ok(1024));
    assert_eq!(parse_byte_size(" 1024 "), Ok(1024));
}

#[test]
fn parse_byte_size_accepts_binary_suffixes_case_insensitively() {
    for suffix in ["k", "K", "kb", "KB", "Kb"] {
        assert_eq!(parse_byte_size(&format!("2{suffix}")), Ok(2 * 1024));
    }
    for suffix in ["m", "M", "mb", "MB"] {
        assert_eq!(parse_byte_size(&format!("2{suffix}")), Ok(2 * 1024 * 1024));
    }
    for suffix in ["g", "G", "gb", "GB"] {
        assert_eq!(parse_byte_size(&format!("2{suffix}")), Ok(2 * 1024 * 1024 * 1024));
    }
    assert_eq!(parse_byte_size("512b"), Ok(512));
}

#[test]
fn parse_byte_size_rejects_garbage() {
    assert!(parse_byte_size("8x").is_err());
    assert!(parse_byte_size("kb").is_err());
    assert!(parse_byte_size("").is_err());
}

#[test]
fn parse_byte_size_error_messages() {
    assert_eq!(
        parse_byte_size("8x"),
        Err("\"8x\" is not a valid size: expected a number, optionally followed by k, m, or g".to_string())
    );
    assert_eq!(
        parse_byte_size("99999999999999999999g"),
        Err("\"99999999999999999999g\" is not a valid size: expected a number, optionally followed by k, m, or g".to_string())
    );
    assert_eq!(
        parse_byte_size("18446744073709551615k"),
        Err("\"18446744073709551615k\" is too large".to_string())
    );
}

#[test]
fn looks_like_uri_accepts_a_well_formed_scheme() {
    assert!(looks_like_uri("http://example.com"));
    assert!(looks_like_uri("git+ssh://host/repo"));
    assert!(looks_like_uri("a://"));
}

#[test]
fn looks_like_uri_rejects_plain_paths() {
    assert!(!looks_like_uri("some/relative/path"));
    assert!(!looks_like_uri("/etc/passwd"));
    assert!(!looks_like_uri("C:\\Users\\foo"));
    assert!(!looks_like_uri("not a scheme: still not one"));
}

#[test]
fn looks_like_uri_rejects_a_scheme_starting_with_a_digit() {
    assert!(!looks_like_uri("9p://host/path"));
}

#[test]
fn split_pipe_segments_splits_and_trims() {
    assert_eq!(
        split_pipe_segments("file://x.zip | zip://foo.txt"),
        vec!["file://x.zip", "zip://foo.txt"]
    );
    assert_eq!(split_pipe_segments("a://b"), vec!["a://b"]);
}

#[test]
fn split_pipe_segments_decodes_doubled_pipes_greedily() {
    assert_eq!(split_pipe_segments("a||b"), vec!["a|b"]);
    assert_eq!(split_pipe_segments("a|||b"), vec!["a|", "b"]);
}

#[test]
fn split_id_ignores_empty_segments() {
    assert_eq!(split_id("a/b"), vec!["a", "b"]);
    assert_eq!(split_id("/a/b/"), vec!["a", "b"]);
    assert_eq!(split_id(""), Vec::<String>::new());
}

#[test]
fn toggle_known_covers_every_registered_type() {
    assert!(toggle_known("hidden"));
    assert!(toggle_known("raw"));
    assert!(toggle_known("meta"));
    assert!(!toggle_known("wrap"));
    assert!(!toggle_known("bogus"));
}

#[test]
fn env_flags_may_not_set_the_path_or_unknown_ids() {
    assert_eq!(env_arg_refusal("nerd_font"), None);
    assert_eq!(env_arg_refusal("slow_pipe_buffer_size"), None);
    assert_eq!(env_arg_refusal("path"), Some("IOTACTL_FLAGS may not set the PATH argument".to_string()));
    assert_eq!(env_arg_refusal("some_new_flag"), Some("IOTACTL_FLAGS may not set --some-new-flag".to_string()));
}

#[test]
fn environment_words_go_before_the_command_line() {
    let argv = vec!["iotactl".to_string(), "--no-mouse".to_string(), "dir".to_string()];
    let env = vec!["--mouse".to_string(), "--nerd-font".to_string()];
    assert_eq!(
        splice_env_args(argv, env),
        vec!["iotactl", "--mouse", "--nerd-font", "--no-mouse", "dir"]
    );
}

#[test]
fn toggle_requests_apply_in_command_line_order() {
    let on = vec![(3usize, "hidden".to_string()), (7usize, "wrap".to_string())];
    let off = vec![(1usize, "wrap".to_string()), (5usize, "hidden".to_string())];
    assert_eq!(
        order_toggle_requests(on, off),
        vec![
            ("wrap".to_string(), false),
            ("hidden".to_string(), true),
            ("hidden".to_string(), false),
            ("wrap".to_string(), true),
        ]
    );
}

/// Runs every decision `create` makes for a URI path, segment by segment,
/// each segment handed the previous one as its upstream source; returns
/// the kinds selected, or the first refusal.
fn select_all(path_arg: &str) -> Result<Vec<SourceKind>, SourceError> {
    let CreatePlan::Segments(segments) = plan_create(path_arg) else {
        panic!("expected {path_arg:?} to be read as a URI");
    };
    let mut kinds = Vec::new();
    for (i, segment) in segments.iter().enumerate() {
        kinds.push(select_segment(segment, i > 0)?.kind);
    }
    Ok(kinds)
}

#[test]
fn create_rejects_an_unrecognized_scheme_instead_of_falling_back_to_fs() {
    let Err(err) = select_all("bogus://something") else {
        panic!("expected create() to fail for an unrecognized scheme");
    };
    assert_eq!(err.kind, ErrorKind::InvalidInput);
    let message = err.message;
    assert!(message.contains("bogus://"), "message was: {message}");
    assert!(message.contains("manual://"), "message was: {message}");
}

#[test]
fn create_rejects_a_pipe_into_a_type_that_does_not_support_it() {
    let Err(err) = select_all("manual:// | manual://") else {
        panic!("expected create() to fail piping into manual://");
    };
    assert_eq!(err.kind, ErrorKind::Unsupported);
    assert!(err.message.contains("manual://"), "message was: {}", err.message);
}

#[test]
fn create_rejects_zip_with_nothing_piped_into_it() {
    let Err(err) = select_all("zip://foo.txt") else {
        panic!("expected create() to fail constructing zip:// with no pipe");
    };
    assert_eq!(err.kind, ErrorKind::InvalidInput);
}

#[test]
fn construct_rejects_a_bare_zip_scheme_with_no_pipe() {
    let Err(err) = check_pipe(SourceKind::Zip, false) else {
        panic!("expected zip:// with no pipe to fail");
    };
    assert_eq!(err.kind, ErrorKind::InvalidInput);
}

#[test]
fn a_plain_path_is_never_split_on_pipes() {
    assert!(matches!(plan_create("some/nonexistent|path"), CreatePlan::Filesystem));
}

#[test]
fn a_piped_archive_selects_each_segment_type_in_turn() {
    assert_eq!(select_all("file://x.zip | zip://inner").unwrap(), vec![SourceKind::Fs, SourceKind::Zip]);
    let m = select_segment("zip://dir/a.txt", true).unwrap();
    assert_eq!(m.scheme, "zip://");
    assert_eq!(m.rest, "dir/a.txt");
    assert_eq!(m.type_index, 2);
}

#[test]
fn an_unrecognized_scheme_is_refused_before_any_pipe_check() {
    let err = select_segment("bogus://x", true).unwrap_err();
    assert_eq!(err.kind, ErrorKind::InvalidInput);
    assert_eq!(err.message, "unrecognized scheme \"bogus://\" (known schemes: manual://, file://, zip://)");
}

#[test]
fn doubled_pipes_address_segments_that_contain_them() {
    let segments = ["a|b", "c||", "d"];
    let joined = segments.iter().map(|s| s.replace('|', "||")).collect::<Vec<_>>().join("|");
    assert_eq!(joined, "a||b|c|||||d");
    assert_eq!(split_pipe_segments(&joined), segments);
}

#[test]
fn refused_pipes_name_the_scheme() {
    let err = check_pipe(SourceKind::Manual, true).unwrap_err();
    assert_eq!(err.kind, ErrorKind::Unsupported);
    assert_eq!(err.message, "manual:// can't be piped into from another node source");
    let err = check_pipe(SourceKind::Fs, true).unwrap_err();
    assert_eq!(err.kind, ErrorKind::Unsupported);
    assert_eq!(err.message, "file:// can't be piped into from another node source");
    let err = check_pipe(SourceKind::Zip, false).unwrap_err();
    assert!(err.message.starts_with("zip:// has nothing to read on its own"));
    assert!(check_pipe(SourceKind::Zip, true).is_ok());
    assert!(check_pipe(SourceKind::Manual, false).is_ok());
    let err = select_segment("manual://", true).unwrap_err();
    assert!(err.message.contains("manual://"));
}

#[test]
fn a_trailing_empty_segment_survives_a_join_and_split() {
    let segments = ["a|b", ""];
    let joined = segments.iter().map(|s| s.replace('|', "||")).collect::<Vec<_>>().join("|");
    assert_eq!(joined, "a||b|");
    assert_eq!(split_pipe_segments(&joined), segments);
}

#[test]
fn create_does_not_split_on_pipe_for_a_plain_filesystem_path() {
    // Not a URI at all, so `|` is an ordinary filename character: the whole
    // path is opened as one filesystem root, and resolving a missing path
    // fails with the reason the filesystem gave.
    let path = "some/nonexistent|path";
    assert!(matches!(plan_create(path), CreatePlan::Filesystem));
    let missing = SourceError::new(ErrorKind::NotFound, "No such file or directory (os error 2)".to_string());
    let Err(err) = FsSource::new(path, Err(missing), false) else {
        panic!("expected create() to fail opening a nonexistent path");
    };
    assert_eq!(err.kind, ErrorKind::NotFound);
    assert_eq!(err.message, "some/nonexistent|path: No such file or directory (os error 2)");
}
