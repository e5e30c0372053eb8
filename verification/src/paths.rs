//! Byte-level path arithmetic for slash-separated entry paths.
//!
//! An entry path is a sequence of bytes; `/` separates segments, and the
//! empty path denotes the archive root.  Everything here is pure string
//! computation: which paths lie strictly under a base directory, and what
//! the immediate child of a base on the way to a deeper entry is.

use vstd::prelude::*;

verus! {

/// The path separator.
pub const SEP: u8 = 47;

/// Length of the first path segment of `s`: the number of bytes before the
/// first separator, or all of `s` when it has none.
pub open spec fn seg_len(s: Seq<u8>) -> int
    decreases s.len(),
{
    if s.len() == 0 {
        0
    } else if s[0] == SEP {
        0
    } else {
        1 + seg_len(s.skip(1))
    }
}

/// `seg_len` is the unique cut point: no separator before it, and a
/// separator (or the end of the path) at it.
pub proof fn lemma_seg_len_is(s: Seq<u8>, n: int)
    requires
        0 <= n <= s.len(),
        forall|j: int| 0 <= j < n ==> s[j] != SEP,
        n < s.len() ==> s[n] == SEP,
    ensures
        seg_len(s) == n,
    decreases n,
{
    if n == 0 {
    } else {
        assert(s[0] != SEP);
        assert(forall|j: int| 0 <= j < n - 1 ==> s.skip(1)[j] == s[j + 1]);
        lemma_seg_len_is(s.skip(1), n - 1);
    }
}

/// No separator occurs before the cut point, and one stands at it unless
/// the path ends there.
pub proof fn lemma_seg_len_char(s: Seq<u8>)
    ensures
        0 <= seg_len(s) <= s.len(),
        forall|j: int| 0 <= j < seg_len(s) ==> s[j] != SEP,
        seg_len(s) < s.len() ==> s[seg_len(s)] == SEP,
    decreases s.len(),
{
    if s.len() > 0 && s[0] != SEP {
        lemma_seg_len_char(s.skip(1));
        assert(forall|j: int| 1 <= j < seg_len(s) ==> s[j] == s.skip(1)[j - 1]);
        if seg_len(s) < s.len() {
            assert(s[seg_len(s)] == s.skip(1)[seg_len(s.skip(1))]);
        }
    }
}

/// Where the part of an entry below `base` starts: the root owns the whole
/// path, any other base is followed by a separator.
pub open spec fn rem_start(base: Seq<u8>) -> int {
    if base.len() == 0 {
        0
    } else {
        base.len() as int + 1
    }
}

/// `p` lies strictly below the directory `base`: `base` is a proper prefix
/// of `p` on a whole-segment boundary.  The root (`base` empty) has every
/// non-empty path below it; no partial segment ever matches, so `foo` is
/// not an ancestor of `foobar/x`.
pub open spec fn strictly_under(base: Seq<u8>, p: Seq<u8>) -> bool {
    if base.len() == 0 {
        p.len() > 0
    } else {
        p.len() > base.len() && p.subrange(0, base.len() as int) == base && p[base.len() as int]
            == SEP
    }
}

/// The immediate child of `base` on the way to the entry `p`: `base`, a
/// separator when `base` is not the root, then the first segment of what
/// remains of `p`.
pub open spec fn child_of(base: Seq<u8>, p: Seq<u8>) -> Seq<u8> {
    p.take(rem_start(base) + seg_len(p.skip(rem_start(base))))
}

/// The immediate child on the way to an entry either is that entry, or
/// lies itself on a whole-segment boundary above it.
pub proof fn lemma_child_of_under(base: Seq<u8>, p: Seq<u8>)
    requires
        strictly_under(base, p),
    ensures
        child_of(base, p) == p || strictly_under(child_of(base, p), p),
{
    let rs = rem_start(base);
    let rem = p.skip(rs);
    lemma_seg_len_char(rem);
    let c = child_of(base, p);
    assert(c.len() == rs + seg_len(rem));
    if rs + seg_len(rem) == p.len() {
        assert(c =~= p);
    } else {
        assert(rem[seg_len(rem)] == SEP);
        assert(p[c.len() as int] == rem[seg_len(rem)]);
        if c.len() > 0 {
            assert(p.subrange(0, c.len() as int) =~= c);
        }
    }
}

/// Byte-for-byte equality of two buffers.
pub fn bytes_eq(a: &Vec<u8>, b: &Vec<u8>) -> (r: bool)
    ensures
        r == (a@ == b@),
{
    if a.len() != b.len() {
        assert(a@ != b@);
        return false;
    }
    let n: usize = a.len();
    let mut i: usize = 0;
    while i < n
        invariant
            n == a@.len() == b@.len(),
            0 <= i <= n,
            forall|j: int| 0 <= j < i ==> a@[j] == b@[j],
        decreases n - i,
    {
        if a[i] != b[i] {
            assert(a@ != b@);
            return false;
        }
        i += 1;
    }
    assert(a@ =~= b@);
    true
}

/// Decides `strictly_under(base@, p@)`.
pub fn is_strictly_under(base: &Vec<u8>, p: &Vec<u8>) -> (r: bool)
    ensures
        r == strictly_under(base@, p@),
{
    if base.len() == 0 {
        return p.len() > 0;
    }
    if p.len() <= base.len() {
        return false;
    }
    if p[base.len()] != SEP {
        return false;
    }
    let n: usize = base.len();
    let mut i: usize = 0;
    while i < n
        invariant
            n == base@.len() < p@.len(),
            0 <= i <= n,
            forall|j: int| 0 <= j < i ==> p@[j] == base@[j],
        decreases n - i,
    {
        if p[i] != base[i] {
            assert(p@.subrange(0, base@.len() as int)[i as int] != base@[i as int]);
            return false;
        }
        i += 1;
    }
    assert(p@.subrange(0, base@.len() as int) =~= base@);
    true
}

/// Computes `child_of(base@, p@)` for an entry strictly below `base`.
pub fn child_bytes(base: &Vec<u8>, p: &Vec<u8>) -> (r: Vec<u8>)
    requires
        strictly_under(base@, p@),
    ensures
        r@ == child_of(base@, p@),
{
    let n: usize = p.len();
    let start: usize = if base.len() == 0 {
        0
    } else {
        assert(base@.len() < p@.len());
        base.len() + 1
    };
    assert(start == rem_start(base@));
    let mut end: usize = start;
    while end < n && p[end] != SEP
        invariant
            start <= end <= n == p@.len(),
            forall|j: int| start <= j < end ==> p@[j] != SEP,
        decreases n - end,
    {
        end += 1;
    }
    proof {
        let rem = p@.skip(start as int);
        assert(forall|j: int| 0 <= j < end - start ==> rem[j] == p@[j + start] && rem[j] != SEP);
        assert(end - start < rem.len() ==> rem[end - start] == SEP);
        lemma_seg_len_is(rem, end - start);
    }
    let mut out: Vec<u8> = Vec::new();
    let mut i: usize = 0;
    while i < end
        invariant
            0 <= i <= end <= p@.len(),
            out@ =~= p@.take(i as int),
        decreases end - i,
    {
        out.push(p[i]);
        i += 1;
    }
    assert(out@ =~= child_of(base@, p@));
    out
}

} // verus!
