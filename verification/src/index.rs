//! The archive index: decodes a byte buffer into the flat set of entry
//! paths that the archive stores, and answers exact-name lookups.
//!
//! Decoding is done by the `zip` crate; everything after it — the lookup
//! table and all queries over it — is verified.  The set of entry names an
//! archive holds is a pure function of its bytes, named `zip_entries`.

use vstd::prelude::*;
use crate::paths::bytes_eq;

verus! {

/// Errors of this library.  `DecodeError` is raised once, at construction,
/// when the buffer is not a well-formed archive; `Unsupported` answers
/// every write-shaped or preview operation on a read-only archive.
#[derive(Debug, PartialEq, Eq, Structural, Clone, Copy)]
pub enum FsError {
    DecodeError,
    Unsupported,
}

#[verifier::external_type_specification]
#[verifier::external_body]
pub struct ExZipError(zip::result::ZipError);

/// The entry-name set stored in a byte buffer, or `None` when the buffer is
/// not a well-formed archive.  Parsing an archive's central directory is
/// deterministic, so this is a function of the bytes alone.
pub uninterp spec fn zip_entries(bytes: Seq<u8>) -> Option<Set<Seq<u8>>>;

/// Relies on `zip::ZipArchive::new` (parses the central directory of the
/// buffer, deterministically; returns `Err` on a malformed archive) and
/// `ZipArchive::file_names` (lists every stored entry name).
#[verifier::external_body]
fn decode_zip(bytes: Vec<u8>) -> (r: Result<Vec<Vec<u8>>, zip::result::ZipError>)
    ensures
        r is Ok <==> zip_entries(bytes@) is Some,
        r matches Ok(names) ==> names@.map_values(|e: Vec<u8>| e@).to_set() == zip_entries(
            bytes@,
        ).unwrap(),
{
    match zip::ZipArchive::new(std::io::Cursor::new(bytes)) {
        Ok(archive) => Ok(archive.file_names().map(|n| n.as_bytes().to_vec()).collect()),
        Err(e) => Err(e),
    }
}

/// An immutable index over one decoded archive: the flat, unordered
/// collection of entry paths.  Directories are never stored; they are
/// derived from this set by the adapter.
pub struct ArchiveIndex {
    entries: Vec<Vec<u8>>,
}

impl ArchiveIndex {
    /// The entry paths, in the (arbitrary) order the decoder handed out.
    pub closed spec fn names(&self) -> Seq<Seq<u8>> {
        self.entries@.map_values(|e: Vec<u8>| e@)
    }

    /// The set of entry paths the archive stores.
    pub open spec fn entry_set(&self) -> Set<Seq<u8>> {
        self.names().to_set()
    }

    /// Decodes `bytes` as an archive.  Fails with `DecodeError` exactly on
    /// the buffers that are not well-formed archives; on success the index
    /// holds precisely the archive's entry-name set.
    pub fn open(bytes: Vec<u8>) -> (r: Result<ArchiveIndex, FsError>)
        ensures
            r is Ok <==> zip_entries(bytes@) is Some,
            r matches Ok(ix) ==> ix.entry_set() == zip_entries(bytes@).unwrap(),
            r matches Err(e) ==> e == FsError::DecodeError,
    {
        match decode_zip(bytes) {
            Ok(names) => Ok(ArchiveIndex { entries: names }),
            Err(_) => Err(FsError::DecodeError),
        }
    }

    /// Exact-match, case-sensitive lookup of one entry name.
    pub fn entry_exists(&self, name: &Vec<u8>) -> (r: bool)
        ensures
            r == self.entry_set().contains(name@),
    {
        let n: usize = self.entries.len();
        let mut i: usize = 0;
        while i < n
            invariant
                n == self.entries@.len(),
                0 <= i <= n,
                forall|k: int| 0 <= k < i ==> self.names()[k] != name@,

            decreases n - i,
        {
            if bytes_eq(&self.entries[i], name) {
                assert(self.names()[i as int] == name@);
                return true;
            }
            i += 1;
        }
        assert(forall|k: int| 0 <= k < self.names().len() ==> self.names()[k] != name@);
        false
    }

    /// Every stored entry name; finite and restartable, order unspecified.
    pub fn all_entry_names(&self) -> (r: &Vec<Vec<u8>>)
        ensures
            r@.map_values(|e: Vec<u8>| e@) == self.names(),
            r@.map_values(|e: Vec<u8>| e@).to_set() == self.entry_set(),
    {
        &self.entries
    }
}

} // verus!
