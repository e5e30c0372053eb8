//! Properties of the derived filesystem view, stated over the entry-path
//! set and proved once, for every archive.

use vstd::prelude::*;
use crate::paths::{child_of, lemma_child_of_under, strictly_under};
use crate::vfs::{spec_is_dir, spec_is_file, spec_read_dir};

verus! {

/// Every non-empty stored entry path is a file and never a directory.
pub proof fn lemma_entry_is_file_not_dir(s: Set<Seq<u8>>, p: Seq<u8>)
    requires
        s.contains(p),
        p.len() > 0,
    ensures
        spec_is_file(s, p),
        !spec_is_dir(s, p),
{
}

/// Every proper segment-boundary ancestor of a stored entry is a
/// directory, as long as the ancestor is not itself a stored entry.
pub proof fn lemma_ancestor_is_dir(s: Set<Seq<u8>>, p: Seq<u8>, a: Seq<u8>)
    requires
        s.contains(p),
        strictly_under(a, p),
        !s.contains(a),
    ensures
        spec_is_dir(s, a),
{
    if a.len() > 0 {
        assert(s.contains(p) && strictly_under(a, p));
    }
}

/// Listing the same base twice over one unchanged entry set yields
/// set-equal results.
pub proof fn lemma_read_dir_idempotent(
    s: Set<Seq<u8>>,
    base: Seq<u8>,
    r1: Seq<Seq<u8>>,
    r2: Seq<Seq<u8>>,
)
    requires
        r1.to_set() == spec_read_dir(s, base),
        r2.to_set() == spec_read_dir(s, base),
    ensures
        r1.to_set() == r2.to_set(),
{
}

/// An archive with no entries lists nothing, for every base; the listing
/// is empty rather than an error.
pub proof fn lemma_read_dir_empty(s: Set<Seq<u8>>, base: Seq<u8>)
    requires
        s == Set::<Seq<u8>>::empty(),
    ensures
        spec_read_dir(s, base) == Set::<Seq<u8>>::empty(),
{
    assert forall|c: Seq<u8>| !(#[trigger] spec_read_dir(s, base).contains(c)) by {
        if spec_read_dir(s, base).contains(c) {
            let q = choose|q: Seq<u8>|
                #[trigger] s.contains(q) && strictly_under(base, q) && c == child_of(base, q);
            assert(false);
        }
    }
    assert(spec_read_dir(s, base) =~= Set::<Seq<u8>>::empty());
}

/// Every path that a listing hands out exists in the derived tree: it is
/// a stored entry, or a derived directory above one.
pub proof fn lemma_listed_children_exist(s: Set<Seq<u8>>, base: Seq<u8>, c: Seq<u8>)
    requires
        spec_read_dir(s, base).contains(c),
    ensures
        spec_is_file(s, c) || spec_is_dir(s, c),
{
    let q = choose|q: Seq<u8>|
        #[trigger] s.contains(q) && strictly_under(base, q) && c == child_of(base, q);
    lemma_child_of_under(base, q);
    if c == q {
        assert(spec_is_file(s, c));
    } else if !s.contains(c) && c.len() > 0 {
        assert(s.contains(q) && strictly_under(c, q));
        assert(spec_is_dir(s, c));
    }
}

} // verus!
