//! Small verified helpers on byte strings.

use vstd::prelude::*;

verus! {

/// The position of the first `/` at or after `pos`, or the length of `s`
/// if there is none: the end of the path segment that starts at `pos`.
pub open spec fn seg_end(s: Seq<u8>, pos: int) -> int
    decreases s.len() - pos,
{
    if pos < 0 || pos >= s.len() {
        s.len() as int
    } else if s[pos] == 0x2f {
        pos
    } else {
        seg_end(s, pos + 1)
    }
}

/// `seg_end` lies between `pos` and the length, no `/` stands before it,
/// and a `/` stands at it unless it is the length.
pub proof fn lemma_seg_end(s: Seq<u8>, pos: int)
    requires
        0 <= pos <= s.len(),
    ensures
        pos <= seg_end(s, pos) <= s.len(),
        forall|i: int| pos <= i < seg_end(s, pos) ==> s[i] != 0x2f,
        seg_end(s, pos) < s.len() ==> s[seg_end(s, pos)] == 0x2f,
    decreases s.len() - pos,
{
    if pos < s.len() && s[pos] != 0x2f {
        lemma_seg_end(s, pos + 1);
    }
}

/// A position with no `/` between `pos` and itself, and which is the
/// length or holds a `/`, is `seg_end`.
pub proof fn lemma_seg_end_unique(s: Seq<u8>, pos: int, e: int)
    requires
        0 <= pos <= e <= s.len(),
        forall|i: int| pos <= i < e ==> s[i] != 0x2f,
        e < s.len() ==> s[e] == 0x2f,
    ensures
        seg_end(s, pos) == e,
    decreases e - pos,
{
    if pos < e {
        lemma_seg_end_unique(s, pos + 1, e);
    }
}

/// Finds the end of the segment that starts at `pos`.
pub fn find_seg_end(s: &[u8], pos: usize) -> (e: usize)
    requires
        pos <= s@.len(),
    ensures
        e == seg_end(s@, pos as int),
        pos <= e <= s@.len(),
{
    let mut e: usize = pos;
    while e < s.len() && s[e] != 0x2f
        invariant
            pos <= e <= s@.len(),
            forall|i: int| pos <= i < e ==> s@[i] != 0x2f,
        decreases s@.len() - e,
    {
        e = e + 1;
    }
    proof {
        lemma_seg_end_unique(s@, pos as int, e as int);
    }
    e
}

/// Whether two byte strings are equal.
pub fn bytes_eq(a: &[u8], b: &[u8]) -> (r: bool)
    ensures
        r == (a@ == b@),
{
    if a.len() != b.len() {
        return false;
    }
    let mut i: usize = 0;
    while i < a.len()
        invariant
            a@.len() == b@.len(),
            i <= a@.len(),
            forall|j: int| 0 <= j < i ==> a@[j] == b@[j],
        decreases a@.len() - i,
    {
        if a[i] != b[i] {
            return false;
        }
        i = i + 1;
    }
    assert(a@ =~= b@);
    true
}

/// Whether `a[from..to]` equals `b`.
pub fn range_eq(a: &[u8], from: usize, to: usize, b: &[u8]) -> (r: bool)
    requires
        from <= to <= a@.len(),
    ensures
        r == (a@.subrange(from as int, to as int) == b@),
{
    if to - from != b.len() {
        return false;
    }
    let mut i: usize = 0;
    while i < b.len()
        invariant
            from <= to <= a@.len(),
            to - from == b@.len(),
            i <= b@.len(),
            forall|j: int| 0 <= j < i ==> a@[from + j] == b@[j],
        decreases b@.len() - i,
    {
        if a[from + i] != b[i] {
            assert(a@.subrange(from as int, to as int)[i as int] != b@[i as int]);
            return false;
        }
        i = i + 1;
    }
    assert(a@.subrange(from as int, to as int) =~= b@);
    true
}

/// Whether `p` is a prefix of `s`.
pub fn starts_with(s: &[u8], p: &[u8]) -> (r: bool)
    ensures
        r == p@.is_prefix_of(s@),
{
    if p.len() > s.len() {
        return false;
    }
    let r = range_eq(s, 0, p.len(), p);
    proof {
        if r {
            assert(p@ =~= s@.subrange(0, p@.len() as int));
        } else if p@.is_prefix_of(s@) {
            assert(s@.subrange(0, p@.len() as int) =~= p@);
        }
    }
    r
}

/// A copy of `a[from..to]`.
pub fn copy_range(a: &[u8], from: usize, to: usize) -> (v: Vec<u8>)
    requires
        from <= to <= a@.len(),
    ensures
        v@ == a@.subrange(from as int, to as int),
{
    let mut v: Vec<u8> = Vec::new();
    let mut i: usize = from;
    while i < to
        invariant
            from <= i <= to <= a@.len(),
            v@ == a@.subrange(from as int, i as int),
        decreases to - i,
    {
        v.push(a[i]);
        assert(v@ =~= a@.subrange(from as int, i + 1));
        i = i + 1;
    }
    v
}

/// A copy of `a`.
pub fn copy_bytes(a: &[u8]) -> (v: Vec<u8>)
    ensures
        v@ == a@,
{
    let v = copy_range(a, 0, a.len());
    assert(a@.subrange(0, a@.len() as int) =~= a@);
    v
}

/// Appends `b` to `v`.
pub fn append_bytes(v: &mut Vec<u8>, b: &[u8])
    ensures
        final(v)@ == old(v)@ + b@,
{
    let mut i: usize = 0;
    while i < b.len()
        invariant
            i <= b@.len(),
            v@ == old(v)@ + b@.subrange(0, i as int),
        decreases b@.len() - i,
    {
        v.push(b[i]);
        assert(v@ =~= old(v)@ + b@.subrange(0, i + 1));
        i = i + 1;
    }
    assert(b@.subrange(0, b@.len() as int) =~= b@);
}

} // verus!
