//! The virtual-filesystem adapter: presents the flat entry-path set of an
//! archive as a tree.
//!
//! A path is a file exactly when it is a stored entry.  A path is a
//! directory exactly when it is the root, or a proper segment-boundary
//! ancestor of some entry without being an entry itself.  `read_dir`
//! derives the immediate children of a base directory from the entry set
//! alone; nothing is ever stored for a directory.

use vstd::prelude::*;
use crate::index::{ArchiveIndex, FsError, zip_entries};
use crate::paths::{bytes_eq, child_bytes, child_of, is_strictly_under, strictly_under};

verus! {

/// `p` names a file of the entry set `s`.
pub open spec fn spec_is_file(s: Set<Seq<u8>>, p: Seq<u8>) -> bool {
    s.contains(p)
}

/// `p` names a directory of the entry set `s`: the root, or a proper
/// segment-boundary ancestor of some entry that is not itself an entry.
pub open spec fn spec_is_dir(s: Set<Seq<u8>>, p: Seq<u8>) -> bool {
    p.len() == 0 || (!s.contains(p) && exists|q: Seq<u8>|
        #[trigger] s.contains(q) && strictly_under(p, q))
}

/// The immediate children of the directory `base` in the entry set `s`:
/// one path per distinct first segment below `base`.
pub open spec fn spec_read_dir(s: Set<Seq<u8>>, base: Seq<u8>) -> Set<Seq<u8>> {
    Set::new(
        |c: Seq<u8>|
            exists|q: Seq<u8>|
                #[trigger] s.contains(q) && strictly_under(base, q) && c == child_of(base, q),
    )
}

/// Metadata of an archive member.  Archive entries carry no size or time
/// contract here, so every field stays absent.
#[derive(Debug, Clone, Copy)]
pub struct Metadata {
    pub size: Option<u64>,
    pub modified: Option<u64>,
    pub created: Option<u64>,
}

/// One storage volume, as the capability interface describes it.  An
/// archive has none.
#[derive(Debug)]
pub struct Disk {
    pub mount_point: Vec<u8>,
    pub display_name: Vec<u8>,
    pub is_removable: bool,
}

/// Well-known user directories.  An archive has none.
#[derive(Debug)]
pub struct UserDirectories {
    pub home: Option<Vec<u8>>,
    pub documents: Option<Vec<u8>>,
    pub downloads: Option<Vec<u8>>,
}

/// `c` is the immediate child derived from one of the first `upto` entries
/// of `ns` below `base`.
spec fn derived_child(ns: Seq<Seq<u8>>, base: Seq<u8>, upto: int, c: Seq<u8>) -> bool {
    exists|k: int|
        0 <= k < upto && strictly_under(base, #[trigger] ns[k]) && c == child_of(base, ns[k])
}

proof fn lemma_derived_child_mono(ns: Seq<Seq<u8>>, base: Seq<u8>, a: int, b: int, c: Seq<u8>)
    requires
        derived_child(ns, base, a, c),
        a <= b,
    ensures
        derived_child(ns, base, b, c),
{
    let k = choose|k: int|
        0 <= k < a && strictly_under(base, #[trigger] ns[k]) && c == child_of(base, ns[k]);
    assert(0 <= k < b && strictly_under(base, ns[k]) && c == child_of(base, ns[k]));
}

/// True exactly when `x@` occurs among the views of `v`'s elements.
fn contains_bytes(v: &Vec<Vec<u8>>, x: &Vec<u8>) -> (r: bool)
    ensures
        r == v@.map_values(|e: Vec<u8>| e@).contains(x@),
{
    let n: usize = v.len();
    let mut i: usize = 0;
    while i < n
        invariant
            n == v@.len(),
            0 <= i <= n,
            forall|k: int| 0 <= k < i ==> (#[trigger] v@[k])@ != x@,
        decreases n - i,
    {
        if bytes_eq(&v[i], x) {
            assert(v@.map_values(|e: Vec<u8>| e@)[i as int] == x@);
            return true;
        }
        i += 1;
    }
    assert(!v@.map_values(|e: Vec<u8>| e@).contains(x@));
    false
}

/// The adapter: wraps one immutable archive index and answers the
/// filesystem capability interface from it.  It holds no other state, so
/// every query is idempotent.
pub struct ZipWrapper {
    index: ArchiveIndex,
}

impl ZipWrapper {
    /// The entry-path set this adapter serves.
    pub closed spec fn entry_set(&self) -> Set<Seq<u8>> {
        self.index.entry_set()
    }

    /// Wraps an already decoded index.
    pub fn new(index: ArchiveIndex) -> (r: ZipWrapper)
        ensures
            r.entry_set() == index.entry_set(),
    {
        ZipWrapper { index }
    }

    /// Decodes `bytes` and wraps the index.  Fails with `DecodeError`
    /// exactly on the buffers that are not well-formed archives, and then
    /// produces no adapter at all.
    pub fn open(bytes: Vec<u8>) -> (r: Result<ZipWrapper, FsError>)
        ensures
            r is Ok <==> zip_entries(bytes@) is Some,
            r matches Ok(w) ==> w.entry_set() == zip_entries(bytes@).unwrap(),
            r matches Err(e) ==> e == FsError::DecodeError,
    {
        match ArchiveIndex::open(bytes) {
            Ok(index) => Ok(ZipWrapper { index }),
            Err(e) => Err(e),
        }
    }

    /// True exactly when `path` is a stored entry.
    pub fn is_file(&self, path: &Vec<u8>) -> (r: bool)
        ensures
            r == spec_is_file(self.entry_set(), path@),
    {
        self.index.entry_exists(path)
    }

    /// True exactly when `path` is the root or a derived directory.
    pub fn is_dir(&self, path: &Vec<u8>) -> (r: bool)
        ensures
            r == spec_is_dir(self.entry_set(), path@),
    {
        if path.len() == 0 {
            return true;
        }
        if self.index.entry_exists(path) {
            return false;
        }
        let names = self.index.all_entry_names();
        let ghost ns: Seq<Seq<u8>> = names@.map_values(|e: Vec<u8>| e@);
        assert(self.entry_set() == ns.to_set());
        let n: usize = names.len();
        let mut i: usize = 0;
        while i < n
            invariant
                n == names@.len(),
                ns == names@.map_values(|e: Vec<u8>| e@),
                self.entry_set() == ns.to_set(),
                path@.len() > 0,
                !self.entry_set().contains(path@),
                0 <= i <= n,
                forall|k: int| 0 <= k < i ==> !strictly_under(path@, #[trigger] ns[k]),
            decreases n - i,
        {
            if is_strictly_under(path, &names[i]) {
                assert(ns[i as int] == names@[i as int]@);
                assert(ns.contains(ns[i as int]));
                assert(self.entry_set().contains(ns[i as int]));
                return true;
            }
            i += 1;
        }
        assert forall|q: Seq<u8>| self.entry_set().contains(q) implies !strictly_under(
            path@,
            q,
        ) by {
            assert(ns.contains(q));
            let k = choose|k: int| 0 <= k < ns.len() && ns[k] == q;
            assert(!strictly_under(path@, ns[k]));
        }
        false
    }

    /// The immediate children of `base`, one per distinct first segment
    /// below it, without duplicates; the order is unspecified.  Total: an
    /// empty or unmatched base yields an empty listing, never an error.
    pub fn read_dir(&self, base: &Vec<u8>) -> (r: Vec<Vec<u8>>)
        ensures
            r@.map_values(|e: Vec<u8>| e@).to_set() == spec_read_dir(self.entry_set(), base@),
            forall|i: int, j: int| 0 <= i < j < r@.len() ==> r@[i]@ != r@[j]@,
    {
        let names = self.index.all_entry_names();
        let ghost ns: Seq<Seq<u8>> = names@.map_values(|e: Vec<u8>| e@);
        assert(self.entry_set() == ns.to_set());
        let n: usize = names.len();
        let mut out: Vec<Vec<u8>> = Vec::new();
        let mut i: usize = 0;
        while i < n
            invariant
                n == names@.len(),
                ns == names@.map_values(|e: Vec<u8>| e@),
                0 <= i <= n,
                forall|k: int|
                    (0 <= k < i && strictly_under(base@, #[trigger] ns[k]))
                        ==> out@.map_values(|e: Vec<u8>| e@).contains(child_of(base@, ns[k])),
                forall|j: int|
                    0 <= j < out@.len() ==> derived_child(ns, base@, i as int, (#[trigger] out@[j])@),
                forall|j1: int, j2: int| 0 <= j1 < j2 < out@.len() ==> out@[j1]@ != out@[j2]@,
            decreases n - i,
        {
            let entry = &names[i];
            assert(entry@ == ns[i as int]);
            if is_strictly_under(base, entry) {
                let child = child_bytes(base, entry);
                let ghost cval: Seq<u8> = child@;
                let ghost prev = out@;
                let already = contains_bytes(&out, &child);
                if !already {
                    out.push(child);
                }
                proof {
                    let prev_mv = prev.map_values(|e: Vec<u8>| e@);
                    let mv = out@.map_values(|e: Vec<u8>| e@);
                    assert(cval == child_of(base@, ns[i as int]));
                    if already {
                        assert(out@ == prev);
                        assert(mv.contains(cval));
                    } else {
                        assert(out@ == prev.push(child));
                        assert(mv =~= prev_mv.push(cval));
                        assert forall|t: int| 0 <= t < prev_mv.len() implies #[trigger] mv[t]
                            == prev_mv[t] by {
                            assert(mv[t] == prev_mv.push(cval)[t]);
                        }
                        assert(mv[prev_mv.len() as int] == cval);
                        assert(mv.contains(cval));
                    }
                    assert forall|k: int|
                        (0 <= k < i + 1 && strictly_under(
                            base@,
                            #[trigger] ns[k],
                        )) implies mv.contains(child_of(base@, ns[k])) by {
                        if k < i {
                            assert(prev_mv.contains(child_of(base@, ns[k])));
                            let j = choose|j: int|
                                0 <= j < prev_mv.len() && prev_mv[j] == child_of(base@, ns[k]);
                            assert(mv[j] == child_of(base@, ns[k]));
                        } else {
                            assert(child_of(base@, ns[k]) == cval);
                        }
                    }
                    assert forall|j: int|
                        0 <= j < out@.len() implies derived_child(
                        ns,
                        base@,
                        i + 1,
                        (#[trigger] out@[j])@,
                    ) by {
                        if j < prev.len() {
                            assert(out@[j] == prev[j]);
                            assert(derived_child(ns, base@, i as int, prev[j]@));
                            lemma_derived_child_mono(ns, base@, i as int, i + 1, prev[j]@);
                        } else {
                            assert(out@[j] == prev.push(child)[j]);
                            assert(out@[j]@ == cval);
                            assert(0 <= i < i + 1 && strictly_under(base@, ns[i as int]) && cval
                                == child_of(base@, ns[i as int]));
                            assert(derived_child(ns, base@, i + 1, cval));
                        }
                    }
                    assert forall|j1: int, j2: int|
                        0 <= j1 < j2 < out@.len() implies out@[j1]@ != out@[j2]@ by {
                        if !already && j2 == out@.len() - 1 {
                            assert(out@[j1] == prev[j1]);
                            assert(prev_mv[j1] == prev[j1]@);
                            assert(prev_mv[j1] != cval);
                        } else {
                            assert(out@[j1] == prev[j1] && out@[j2] == prev[j2]);
                        }
                    }
                }
            } else {
                proof {
                    assert forall|j: int|
                        0 <= j < out@.len() implies derived_child(
                        ns,
                        base@,
                        i + 1,
                        (#[trigger] out@[j])@,
                    ) by {
                        lemma_derived_child_mono(ns, base@, i as int, i + 1, out@[j]@);
                    }
                }
            }
            i += 1;
        }
        proof {
            let s = self.entry_set();
            let mv = out@.map_values(|e: Vec<u8>| e@);
            assert forall|c: Seq<u8>| mv.to_set().contains(c) implies spec_read_dir(
                s,
                base@,
            ).contains(c) by {
                let j = choose|j: int| 0 <= j < mv.len() && mv[j] == c;
                assert(out@[j]@ == c);
                assert(derived_child(ns, base@, n as int, out@[j]@));
                let k = choose|k: int|
                    0 <= k < n && strictly_under(base@, #[trigger] ns[k]) && c == child_of(
                        base@,
                        ns[k],
                    );
                assert(ns.contains(ns[k]));
                assert(s.contains(ns[k]));
            }
            assert forall|c: Seq<u8>| spec_read_dir(s, base@).contains(c) implies mv.to_set()
                .contains(c) by {
                let q = choose|q: Seq<u8>|
                    #[trigger] s.contains(q) && strictly_under(base@, q) && c == child_of(base@, q);
                assert(ns.contains(q));
                let k = choose|k: int| 0 <= k < ns.len() && ns[k] == q;
                assert(strictly_under(base@, ns[k]));
                assert(mv.contains(child_of(base@, ns[k])));
            }
            assert(mv.to_set() =~= spec_read_dir(s, base@));
        }
        out
    }

    /// Fixed default metadata; never fails.
    pub fn metadata(&self, _path: &Vec<u8>) -> (r: Result<Metadata, FsError>)
        ensures
            r matches Ok(m) && m.size is None && m.modified is None && m.created is None,
    {
        Ok(Metadata { size: None, modified: None, created: None })
    }

    /// The archive is read-only: always `Unsupported`.
    pub fn create_dir(&self, _path: &Vec<u8>) -> (r: Result<(), FsError>)
        ensures
            r matches Err(e) && e == FsError::Unsupported,
    {
        Err(FsError::Unsupported)
    }

    /// Entry contents are never read: always `Unsupported`.
    pub fn load_text_file_preview(&self, _path: &Vec<u8>, _max_chars: usize) -> (r: Result<
        Vec<u8>,
        FsError,
    >)
        ensures
            r matches Err(e) && e == FsError::Unsupported,
    {
        Err(FsError::Unsupported)
    }

    /// An archive has no well-known user directories.
    pub fn user_dirs(&self, _canonicalize_paths: bool) -> (r: Option<UserDirectories>)
        ensures
            r is None,
    {
        None
    }

    /// An archive has no storage volumes.
    pub fn get_disks(&self, _canonicalize_paths: bool) -> (r: Vec<Disk>)
        ensures
            r@.len() == 0,
    {
        Vec::new()
    }

    /// No hidden-file convention exists inside an archive.
    pub fn is_path_hidden(&self, _path: &Vec<u8>) -> (r: bool)
        ensures
            !r,
    {
        false
    }

    /// The browsing session starts at the archive root.
    pub fn current_dir(&self) -> (r: Result<Vec<u8>, FsError>)
        ensures
            r matches Ok(p) && p@.len() == 0,
    {
        Ok(Vec::new())
    }
}

} // verus!
