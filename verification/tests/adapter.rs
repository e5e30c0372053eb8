use zipfs::index::FsError;
use zipfs::vfs::ZipWrapper;

use std::io::Cursor;
use zip::write::{SimpleFileOptions, ZipWriter as RawZipWriter};

fn make_zip(names: &[&str]) -> Vec<u8> {
    let mut w = RawZipWriter::new(Cursor::new(Vec::new()));
    for name in names {
        let opts = SimpleFileOptions::default()
            .compression_method(zip::CompressionMethod::Stored);
        w.start_file(*name, opts).unwrap();
    }
    w.finish().unwrap().into_inner()
}

fn b(s: &str) -> Vec<u8> {
    s.as_bytes().to_vec()
}

fn sorted(listing: Vec<Vec<u8>>) -> Vec<String> {
    let mut out: Vec<String> = listing
        .into_iter()
        .map(|p| String::from_utf8(p).unwrap())
        .collect();
    out.sort();
    out
}

fn sample() -> ZipWrapper {
    ZipWrapper::open(make_zip(&["a/b.txt", "a/c/d.txt", "e.txt"])).unwrap()
}

#[test]
fn garbage_bytes_fail_to_decode() {
    let r = ZipWrapper::open(b"this is not an archive".to_vec());
    assert!(matches!(r, Err(FsError::DecodeError)));
}

#[test]
fn empty_buffer_fails_to_decode() {
    let r = ZipWrapper::open(Vec::new());
    assert!(matches!(r, Err(FsError::DecodeError)));
}

#[test]
fn truncated_archive_fails_to_decode() {
    let mut bytes = make_zip(&["a/b.txt"]);
    bytes.truncate(bytes.len() / 2);
    let r = ZipWrapper::open(bytes);
    assert!(matches!(r, Err(FsError::DecodeError)));
}

#[test]
fn entries_are_files_and_not_dirs() {
    let w = sample();
    for name in ["a/b.txt", "a/c/d.txt", "e.txt"] {
        assert!(w.is_file(&b(name)), "{name} should be a file");
        assert!(!w.is_dir(&b(name)), "{name} should not be a dir");
    }
}

#[test]
fn ancestors_are_dirs() {
    let w = sample();
    assert!(w.is_dir(&b("")));
    assert!(w.is_dir(&b("a")));
    assert!(w.is_dir(&b("a/c")));
    assert!(!w.is_file(&b("a")));
    assert!(!w.is_file(&b("a/c")));
    assert!(!w.is_file(&b("")));
}

#[test]
fn missing_paths_are_neither() {
    let w = sample();
    assert!(!w.is_file(&b("zz")));
    assert!(!w.is_dir(&b("zz")));
    assert!(!w.is_dir(&b("a/b.txt/c")));
    assert!(!w.is_file(&b("a/b.txt/c")));
}

#[test]
fn read_dir_root() {
    let w = sample();
    assert_eq!(sorted(w.read_dir(&b(""))), vec!["a".to_string(), "e.txt".to_string()]);
}

#[test]
fn read_dir_subdir() {
    let w = sample();
    assert_eq!(
        sorted(w.read_dir(&b("a"))),
        vec!["a/b.txt".to_string(), "a/c".to_string()]
    );
}

#[test]
fn read_dir_deep_chain() {
    let w = ZipWrapper::open(make_zip(&["x/y/z/w.txt"])).unwrap();
    assert_eq!(sorted(w.read_dir(&b(""))), vec!["x".to_string()]);
    assert_eq!(sorted(w.read_dir(&b("x"))), vec!["x/y".to_string()]);
    assert_eq!(sorted(w.read_dir(&b("x/y"))), vec!["x/y/z".to_string()]);
    assert_eq!(sorted(w.read_dir(&b("x/y/z"))), vec!["x/y/z/w.txt".to_string()]);
    assert!(w.is_dir(&b("x/y/z")));
    assert!(w.is_file(&b("x/y/z/w.txt")));
}

#[test]
fn listed_children_exist() {
    let w = sample();
    for base in ["", "a", "a/c"] {
        for child in w.read_dir(&b(base)) {
            assert!(
                w.is_file(&child) || w.is_dir(&child),
                "{:?} was listed but does not exist",
                String::from_utf8_lossy(&child)
            );
        }
    }
}

#[test]
fn read_dir_empty_archive() {
    let w = ZipWrapper::open(make_zip(&[])).unwrap();
    assert!(w.read_dir(&b("")).is_empty());
    assert!(w.read_dir(&b("anything")).is_empty());
    assert!(w.read_dir(&b("a/b")).is_empty());
}

#[test]
fn read_dir_is_idempotent() {
    let w = sample();
    assert_eq!(sorted(w.read_dir(&b(""))), sorted(w.read_dir(&b(""))));
    assert_eq!(sorted(w.read_dir(&b("a"))), sorted(w.read_dir(&b("a"))));
}

#[test]
fn read_dir_matches_whole_segments_only() {
    let w = ZipWrapper::open(make_zip(&["foo/y", "foobar/x"])).unwrap();
    assert_eq!(sorted(w.read_dir(&b("foo"))), vec!["foo/y".to_string()]);
    assert!(w.is_dir(&b("foo")));
    assert!(w.is_dir(&b("foobar")));
    assert!(!w.is_dir(&b("foob")));
    assert!(w.read_dir(&b("foob")).is_empty());
    assert_eq!(
        sorted(w.read_dir(&b(""))),
        vec!["foo".to_string(), "foobar".to_string()]
    );
}

#[test]
fn write_ops_are_unsupported() {
    let w = sample();
    assert!(matches!(w.create_dir(&b("new")), Err(FsError::Unsupported)));
    assert!(matches!(w.create_dir(&b("")), Err(FsError::Unsupported)));
    assert!(matches!(
        w.load_text_file_preview(&b("e.txt"), 100),
        Err(FsError::Unsupported)
    ));
    assert!(matches!(
        w.load_text_file_preview(&b("nope"), 0),
        Err(FsError::Unsupported)
    ));
}

#[test]
fn no_disks_and_no_user_dirs() {
    let w = sample();
    assert!(w.get_disks(false).is_empty());
    assert!(w.get_disks(true).is_empty());
    assert!(w.user_dirs(false).is_none());
    assert!(w.user_dirs(true).is_none());
}

#[test]
fn metadata_is_default_and_total() {
    let w = sample();
    for name in ["a/b.txt", "zz", ""] {
        let m = w.metadata(&b(name)).unwrap();
        assert!(m.size.is_none());
        assert!(m.modified.is_none());
        assert!(m.created.is_none());
    }
}

#[test]
fn nothing_is_hidden_and_root_is_current() {
    let w = sample();
    assert!(!w.is_path_hidden(&b(".git")));
    assert!(!w.is_path_hidden(&b("a/b.txt")));
    assert_eq!(w.current_dir().unwrap(), b(""));
}
