use std::io::{Cursor, Read, Write};

use iotactl::error::ErrorKind;
use iotactl::streams::{SeekNext, SeekOrigin, SimulatedSeek};
use iotactl::zip_vfs::{RawEntry, ZipDateTime, ZipVfs, key_from_path, path_from_key, system_time_from_zip_datetime};
use zip::write::{SimpleFileOptions, ZipWriter};

fn build_test_archive() -> Vec<u8> {
    let mut writer = ZipWriter::new(Cursor::new(Vec::new()));
    writer.start_file("a.txt", SimpleFileOptions::default()).unwrap();
    writer.write_all(b"hello").unwrap();
    writer.start_file("dir/b.txt", SimpleFileOptions::default()).unwrap();
    writer.write_all(b"world").unwrap();
    writer.start_file("dir/sub/c.txt", SimpleFileOptions::default()).unwrap();
    writer.write_all(b"!").unwrap();
    writer.add_symlink("link.txt", "a.txt", SimpleFileOptions::default()).unwrap();
    writer.add_symlink("broken.txt", "missing.txt", SimpleFileOptions::default()).unwrap();
    writer.finish().unwrap().into_inner()
}

fn raw_entries(bytes: Vec<u8>) -> Vec<RawEntry> {
    let mut archive = zip::ZipArchive::new(Cursor::new(bytes)).unwrap();
    let mut out = Vec::new();
    for i in 0..archive.len() {
        let mut f = archive.by_index(i).unwrap();
        let is_symlink = f.is_symlink();
        let mut link_target = String::new();
        if is_symlink {
            f.read_to_string(&mut link_target).unwrap();
        }
        out.push(RawEntry {
            name: f.name().to_string(),
            is_dir: f.is_dir(),
            is_symlink,
            size: f.size(),
            modified: f.last_modified().map(|d| ZipDateTime {
                year: d.year(),
                month: d.month(),
                day: d.day(),
                hour: d.hour(),
                minute: d.minute(),
                second: d.second(),
            }),
            link_target,
        });
    }
    out
}

fn open_test_vfs() -> ZipVfs {
    ZipVfs::new(&raw_entries(build_test_archive()))
}

#[test]
fn root_lists_top_level_entries() {
    let vfs = open_test_vfs();
    let mut names: Vec<_> = vfs.read_dir("/").unwrap().into_iter().map(|e| e.name).collect();
    names.sort();
    assert_eq!(names, vec!["a.txt", "broken.txt", "dir", "link.txt"]);
}

#[test]
fn nested_directory_lists_correctly() {
    let vfs = open_test_vfs();
    let entries = vfs.read_dir("/dir").unwrap();
    let names: Vec<_> = entries.iter().map(|e| e.name.clone()).collect();
    assert_eq!(names, vec!["b.txt", "sub"]);
    assert!(entries.iter().find(|e| e.name == "sub").unwrap().is_dir);
    assert!(!entries.iter().find(|e| e.name == "b.txt").unwrap().is_dir);
}

#[test]
fn metadata_reports_file_size() {
    let vfs = open_test_vfs();
    let meta = vfs.metadata("/a.txt").unwrap();
    assert!(meta.is_file);
    assert_eq!(meta.len, 5);
}

#[test]
fn symlink_metadata_vs_metadata_follow() {
    let vfs = open_test_vfs();
    let link_meta = vfs.symlink_metadata("/link.txt").unwrap();
    assert!(link_meta.is_symlink);
    assert!(!link_meta.is_file);
    let followed = vfs.metadata("/link.txt").unwrap();
    assert!(followed.is_file);
    assert!(!followed.is_symlink);
    assert_eq!(followed.len, 5);
}

#[test]
fn read_link_returns_raw_target() {
    let vfs = open_test_vfs();
    let target = vfs.read_link("/link.txt").unwrap();
    assert_eq!(target, "a.txt");
}

#[test]
fn broken_symlink_metadata_errors_but_lstat_succeeds() {
    let vfs = open_test_vfs();
    assert!(vfs.metadata("/broken.txt").is_err());
    assert!(vfs.symlink_metadata("/broken.txt").is_ok());
}

#[test]
fn canonicalize_resolves_dot_dot_and_symlinks() {
    let vfs = open_test_vfs();
    let resolved = vfs.canonicalize("/dir/../link.txt").unwrap();
    assert_eq!(resolved, "/a.txt");
}

#[test]
fn errors_name_the_archive_path() {
    let vfs = open_test_vfs();
    let e = vfs.metadata("/nope.txt").unwrap_err();
    assert_eq!(e.kind, ErrorKind::NotFound);
    assert_eq!(e.message, "nope.txt: not found in archive");
    let e = vfs.read_dir("/a.txt").unwrap_err();
    assert_eq!(e.kind, ErrorKind::Other);
    assert_eq!(e.message, "a.txt: not a directory");
    let e = vfs.read_link("/a.txt").unwrap_err();
    assert_eq!(e.kind, ErrorKind::InvalidInput);
    assert_eq!(e.message, "a.txt: not a symlink");
    assert!(vfs.resolve_file("/dir").is_err());
    assert_eq!(vfs.resolve_file("/link.txt").unwrap().size, 5);
}

#[test]
fn keys_and_paths_convert_both_ways() {
    assert_eq!(key_from_path("/dir/b.txt"), "dir/b.txt");
    assert_eq!(key_from_path("/"), "");
    assert_eq!(path_from_key("dir/b.txt"), "/dir/b.txt");
    assert_eq!(key_from_path(&path_from_key("x/y")), "x/y");
}

#[test]
fn zip_timestamps_read_as_utc_seconds() {
    let dt = ZipDateTime { year: 1980, month: 1, day: 1, hour: 0, minute: 0, second: 0 };
    assert_eq!(system_time_from_zip_datetime(&dt), 315532800);
    let dt = ZipDateTime { year: 2024, month: 2, day: 29, hour: 12, minute: 30, second: 15 };
    assert_eq!(system_time_from_zip_datetime(&dt), 1709209815);
}

/// Reads up to `limit` bytes of the archive entry `path` names, the way the
/// program's preview reads a file's start.
fn read_prefix(vfs: &ZipVfs, archive: &mut zip::ZipArchive<Cursor<Vec<u8>>>, path: &str, limit: usize) -> Vec<u8> {
    let entry = vfs.resolve_file(path).unwrap();
    let reader = archive.by_index(entry.archive_index).unwrap();
    let mut buf = Vec::new();
    reader.take(limit as u64).read_to_end(&mut buf).unwrap();
    buf
}

#[test]
fn construct_mounts_a_piped_in_archive_at_its_root() {
    let mut writer = ZipWriter::new(Cursor::new(Vec::new()));
    writer.start_file("a.txt", SimpleFileOptions::default()).unwrap();
    writer.write_all(b"hello").unwrap();
    let bytes = writer.finish().unwrap().into_inner();
    let vfs = ZipVfs::new(&raw_entries(bytes));
    let names: Vec<_> = vfs.read_dir("/").unwrap().into_iter().map(|e| e.name).collect();
    assert_eq!(names, vec!["a.txt"]);
}

#[test]
fn read_prefix_respects_limit() {
    let bytes = build_test_archive();
    let vfs = ZipVfs::new(&raw_entries(bytes.clone()));
    let mut archive = zip::ZipArchive::new(Cursor::new(bytes)).unwrap();
    assert_eq!(read_prefix(&vfs, &mut archive, "/a.txt", 3), b"hel");
}

#[test]
fn open_streams_full_contents() {
    let bytes = build_test_archive();
    let vfs = ZipVfs::new(&raw_entries(bytes.clone()));
    let mut archive = zip::ZipArchive::new(Cursor::new(bytes)).unwrap();
    assert_eq!(read_prefix(&vfs, &mut archive, "/dir/b.txt", usize::MAX), b"world");
}

/// An archive entry read forward from its start, with seeking faked over
/// it by a `SimulatedSeek`; `starts` counts how often it was opened.
struct EntryReader {
    archive: zip::ZipArchive<Cursor<Vec<u8>>>,
    index: usize,
    starts: usize,
    pos: usize,
    seek: SimulatedSeek,
}

impl EntryReader {
    fn pull(&mut self, want: usize) -> Vec<u8> {
        let mut all = Vec::new();
        self.archive.by_index(self.index).unwrap().read_to_end(&mut all).unwrap();
        let end = (self.pos + want).min(all.len());
        let out = all[self.pos..end].to_vec();
        self.pos = end;
        out
    }

    fn read_exact(&mut self, n: usize) -> Vec<u8> {
        let mut out = Vec::new();
        while out.len() < n {
            let got = match self.seek.replay(n - out.len()) {
                Some(bytes) => bytes,
                None => {
                    let bytes = self.pull(n - out.len());
                    self.seek.record_read(&bytes);
                    bytes
                }
            };
            assert!(!got.is_empty(), "unexpected end of entry");
            out.extend(got);
        }
        out
    }

    fn seek_to(&mut self, target: u64) {
        self.seek.start_seek(SeekOrigin::Start(target)).unwrap();
        let step = self.seek.begin_complete();
        if step.restart {
            self.starts += 1;
            self.pos = 0;
        }
        let mut next = step.next;
        while let SeekNext::Discard(want) = next {
            let bytes = self.pull(want);
            next = self.seek.discarded(&bytes);
        }
    }
}

#[test]
fn open_seekable_can_seek_forward_and_backward() {
    let bytes = build_test_archive();
    let vfs = ZipVfs::new(&raw_entries(bytes.clone()));
    let entry = vfs.resolve_file("/a.txt").unwrap();
    let mut stream = EntryReader {
        archive: zip::ZipArchive::new(Cursor::new(bytes)).unwrap(),
        index: entry.archive_index,
        starts: 1,
        pos: 0,
        seek: SimulatedSeek::new(entry.size, 0, true).unwrap(),
    };

    stream.seek_to(2);
    assert_eq!(stream.read_exact(3), b"llo");

    // Seeking backward forces the entry stream to restart from scratch.
    stream.seek_to(0);
    assert_eq!(stream.read_exact(5), b"hello");
    assert_eq!(stream.starts, 2);
}

#[test]
fn keys_in_entry_form_come_back_from_their_paths() {
    for k in ["", "a", "dir/b.txt", "dir/sub/c.txt", "x.y/z"] {
        assert_eq!(key_from_path(&path_from_key(k)), k);
    }
    assert_eq!(key_from_path("/dir/../link.txt"), "link.txt");
    assert_eq!(path_from_key(""), "/");
}
