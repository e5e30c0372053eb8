use zipfs::index::{ArchiveIndex, FsError};
use zipfs::vfs::ZipWrapper;

use std::io::Cursor;
use zip::write::{SimpleFileOptions, ZipWriter as RawZipWriter};

fn make_zip(names: &[&str]) -> Vec<u8> {
    let mut w = RawZipWriter::new(Cursor::new(Vec::new()));
    for name in names {
        let opts = SimpleFileOptions::default()
            .compression_method(zip::CompressionMethod::Stored);
        w.start_file(*name, opts).unwrap();
    }
    w.finish().unwrap().into_inner()
}

fn b(s: &str) -> Vec<u8> {
    s.as_bytes().to_vec()
}

#[test]
fn open_fails_on_malformed_buffer() {
    assert!(matches!(
        ArchiveIndex::open(b"central directory? never heard of it".to_vec()),
        Err(FsError::DecodeError)
    ));
}

#[test]
fn entry_exists_is_exact_and_case_sensitive() {
    let ix = ArchiveIndex::open(make_zip(&["a/b.txt", "e.txt"])).unwrap();
    assert!(ix.entry_exists(&b("a/b.txt")));
    assert!(ix.entry_exists(&b("e.txt")));
    assert!(!ix.entry_exists(&b("A/B.TXT")));
    assert!(!ix.entry_exists(&b("a/b.tx")));
    assert!(!ix.entry_exists(&b("a/b.txt/")));
    assert!(!ix.entry_exists(&b("a")));
    assert!(!ix.entry_exists(&b("")));
}

#[test]
fn all_entry_names_lists_every_entry() {
    let ix = ArchiveIndex::open(make_zip(&["a/b.txt", "a/c/d.txt", "e.txt"])).unwrap();
    let mut names: Vec<String> = ix
        .all_entry_names()
        .iter()
        .map(|n| String::from_utf8(n.clone()).unwrap())
        .collect();
    names.sort();
    assert_eq!(
        names,
        vec!["a/b.txt".to_string(), "a/c/d.txt".to_string(), "e.txt".to_string()]
    );
}

#[test]
fn all_entry_names_of_empty_archive_is_empty() {
    let ix = ArchiveIndex::open(make_zip(&[])).unwrap();
    assert!(ix.all_entry_names().is_empty());
}

#[test]
fn adapter_over_prebuilt_index() {
    let ix = ArchiveIndex::open(make_zip(&["a/b.txt"])).unwrap();
    let w = ZipWrapper::new(ix);
    assert!(w.is_file(&b("a/b.txt")));
    assert!(w.is_dir(&b("a")));
    assert!(!w.is_dir(&b("a/b.txt")));
}
